//! The sensor-layout rules applied to what LibRaw reports: the CFA family
//! and plane map, output orientation, black-level patterns, preview
//! metadata, and the geometry limits checked before unpacking.
use crate::raw_loader::{spec_validate_raw_dimensions, validate_raw_dimensions, CfaKind, RawDimensionError};
use crate::text::{append_decimal, decimal};
use vstd::prelude::*;
use vstd::string::StringExecFns;

verus! {

/// Largest embedded preview payload read.
pub const MAX_EMBEDDED_THUMBNAIL_BYTES: usize = 128 * 1024 * 1024;
/// Longest edge of an embedded preview.
pub const MAX_THUMBNAIL_SOURCE_EDGE: u32 = 65_535;
/// Largest decoded size of an embedded bitmap preview.
pub const MAX_THUMBNAIL_DECODE_BYTES: u64 = 256 * 1024 * 1024;
/// Largest sensor pixel count unpacked by desktop builds; the sensor checks
/// of this library apply it.
pub const MAX_SENSOR_PIXELS: u64 = 160_000_000;
/// Largest sensor pixel count for Android devices, where memory is
/// tighter; the sensor checks of this library apply the desktop limit.
pub const MAX_SENSOR_PIXELS_ANDROID: u64 = 70_000_000;
/// Longest sensor edge unpacked.
pub const MAX_SENSOR_EDGE: u32 = 40_000;
/// Largest accepted raw row pitch in bytes.
pub const MAX_RAW_PITCH: u64 = 1_073_741_824;

/// Why sensor metadata was refused.
#[derive(Clone, Copy, Debug, PartialEq, Eq, Structural)]
pub enum LibRawError {
    /// Filter code 0: full-colour or linear input.
    FullColourInput,
    /// Filter code 1: the Leaf CatchLight 16x16 CFA.
    LeafCatchLight,
    /// Another filter code that is neither Bayer nor X-Trans.
    UnsupportedFilters(u32),
    /// A CFA descriptor letter other than R, G, B or NUL.
    NonRgbCfaDescriptor(u8),
    /// An RGB descriptor without one red, one blue and one or two greens.
    UnsupportedRgbCfaDescriptor,
    /// The preview payload is empty or larger than the limit.
    PreviewLengthOutOfRange,
    /// The preview dimensions are outside the accepted range.
    PreviewDimensionsOutOfRange,
    /// A bitmap preview with a channel count other than 1 or 3.
    PreviewChannels(i32),
    /// The bitmap preview byte count overflows.
    PreviewByteCountOverflow,
    /// The bitmap preview needs more bytes than it declares or than the
    /// decode limit.
    PreviewByteCountMismatch,
    /// A preview format other than JPEG or bitmap.
    UnsupportedPreviewFormat(u32),
    /// The active area is outside the thumbnail limits.
    ActiveDimensionsOutOfRange,
    /// The sensor is outside the thumbnail limits.
    SensorDimensionsOutOfRange,
    /// A pixel count overflows.
    PixelCountOverflow,
    /// The active area is refused as a RAW image.
    RawDimensions(RawDimensionError),
    /// The sensor has no pixels.
    EmptySensor,
    /// A sensor edge exceeds [`MAX_SENSOR_EDGE`].
    SensorEdgeTooLong,
    /// The sensor exceeds [`MAX_SENSOR_PIXELS`].
    TooManySensorPixels,
    /// The raw row pitch is shorter than a row or longer than the limit.
    InvalidRawPitch,
    /// The byte size of a raw row overflows.
    RowSizeOverflow,
    /// The decoded row pitch is shorter than one row.
    PitchTooSmall,
    /// The decoded row pitch is not a whole number of samples.
    PitchMisaligned,
    /// The active crop's edge overflows.
    CropOverflow,
    /// The active crop extends past the decoded buffer.
    CropOutsideBuffer,
    /// The oriented pixel count overflows.
    OrientedSizeOverflow,
    /// An orientation code other than 0 (none), 3 (half turn), 5 (quarter
    /// turn counter-clockwise) or 6 (quarter turn clockwise).
    UnsupportedOrientation(i32),
}

pub open spec fn spec_cfa_kind_from_filters(filters: u32) -> Result<CfaKind, LibRawError> {
    if filters == 9 {
        Ok(CfaKind::XTrans)
    } else if filters >= 1000 {
        Ok(CfaKind::Bayer)
    } else if filters == 0 {
        Err(LibRawError::FullColourInput)
    } else if filters == 1 {
        Err(LibRawError::LeafCatchLight)
    } else {
        Err(LibRawError::UnsupportedFilters(filters))
    }
}

/// The demosaic family of a LibRaw filter code: 9 is X-Trans, 1000 and
/// above are Bayer patterns.
pub fn cfa_kind_from_filters(filters: u32) -> (r: Result<CfaKind, LibRawError>)
    ensures
        r == spec_cfa_kind_from_filters(filters),
{
    if filters == 9 {
        Ok(CfaKind::XTrans)
    } else if filters >= 1000 {
        Ok(CfaKind::Bayer)
    } else if filters == 0 {
        Err(LibRawError::FullColourInput)
    } else if filters == 1 {
        Err(LibRawError::LeafCatchLight)
    } else {
        Err(LibRawError::UnsupportedFilters(filters))
    }
}

/// The source position of output pixel `(x, y)` under a LibRaw flip: 3
/// rotates by 180 degrees, 5 and 6 by 90 degrees each way, anything else
/// keeps the position.
pub open spec fn spec_oriented_source_pos(x: int, y: int, width: int, height: int, flip: i32) -> (int, int) {
    if flip == 3 {
        (width - 1 - x, height - 1 - y)
    } else if flip == 5 {
        (width - 1 - y, x)
    } else if flip == 6 {
        (y, height - 1 - x)
    } else {
        (x, y)
    }
}

/// The position lies in the output of a `width` x `height` source under
/// `flip`.
pub open spec fn in_oriented_output(x: int, y: int, width: int, height: int, flip: i32) -> bool {
    if flip == 5 || flip == 6 {
        0 <= x < height && 0 <= y < width
    } else {
        0 <= x < width && 0 <= y < height
    }
}

pub fn oriented_source_pos(x: usize, y: usize, width: usize, height: usize, flip: i32) -> (r: (usize, usize))
    requires
        flip == 3 ==> x < width && y < height,
        flip == 5 ==> y < width,
        flip == 6 ==> x < height,
    ensures
        (r.0 as int, r.1 as int) == spec_oriented_source_pos(x as int, y as int, width as int, height as int, flip),
        in_oriented_output(x as int, y as int, width as int, height as int, flip) ==> r.0 < width && r.1 < height,
{
    if flip == 3 {
        (width - 1 - x, height - 1 - y)
    } else if flip == 5 {
        (width - 1 - y, x)
    } else if flip == 6 {
        (y, height - 1 - x)
    } else {
        (x, y)
    }
}

/// The RGB plane a descriptor letter names.
pub open spec fn rgb_plane(letter: u8) -> Option<u8> {
    if letter == 0x52 || letter == 0x72 {
        Some(0)
    } else if letter == 0x47 || letter == 0x67 {
        Some(1)
    } else if letter == 0x42 || letter == 0x62 {
        Some(2)
    } else {
        None
    }
}

/// Entries of `cdesc[..n]` that name `plane`.
pub open spec fn plane_count(cdesc: Seq<u8>, n: int, plane: u8) -> nat
    decreases n,
{
    if n <= 0 {
        0
    } else {
        plane_count(cdesc, n - 1, plane) + if rgb_plane(cdesc[n - 1]) == Some(plane) { 1nat } else { 0nat }
    }
}

/// The canonical plane of descriptor entry `i`: red 0, the first green 1,
/// blue 2, a second green and NUL entries 3.
pub open spec fn canonical_plane(cdesc: Seq<u8>, i: int) -> u8 {
    match rgb_plane(cdesc[i]) {
        Some(0) => 0,
        Some(2) => 2,
        Some(_) => if plane_count(cdesc, i, 1) == 0 { 1 } else { 3 },
        None => 3,
    }
}

/// The first descriptor entry that is neither an RGB letter nor NUL.
pub open spec fn first_foreign_letter(cdesc: Seq<u8>, n: int) -> Option<u8>
    decreases n,
{
    if n <= 0 {
        None
    } else {
        match first_foreign_letter(cdesc, n - 1) {
            Some(letter) => Some(letter),
            None => if rgb_plane(cdesc[n - 1]).is_none() && cdesc[n - 1] != 0 { Some(cdesc[n - 1]) } else { None },
        }
    }
}

pub open spec fn spec_canonical_cfa_map(cdesc: Seq<u8>) -> Result<Seq<u8>, LibRawError> {
    match first_foreign_letter(cdesc, 4) {
        Some(letter) => Err(LibRawError::NonRgbCfaDescriptor(letter)),
        None => if plane_count(cdesc, 4, 0) != 1 || plane_count(cdesc, 4, 2) != 1 || plane_count(cdesc, 4, 1) < 1
            || plane_count(cdesc, 4, 1) > 2 {
            Err(LibRawError::UnsupportedRgbCfaDescriptor)
        } else {
            Ok(Seq::new(4, |i: int| canonical_plane(cdesc, i)))
        },
    }
}

/// The map from LibRaw's four colour channels to canonical planes (red 0,
/// green 1, blue 2, second green 3), keeping two greens apart; refused for
/// non-RGB descriptors and for RGB ones without exactly one red, one blue
/// and one or two greens.
pub fn canonical_cfa_map(cdesc: [u8; 4]) -> (r: Result<[u8; 4], LibRawError>)
    ensures
        (match r {
            Ok(map) => Ok(map@),
            Err(e) => Err(e),
        }) == spec_canonical_cfa_map(cdesc@),
{
    let mut map: [u8; 4] = [3, 3, 3, 3];
    let mut red_count: u8 = 0;
    let mut green_count: u8 = 0;
    let mut blue_count: u8 = 0;
    let mut index: usize = 0;
    while index < 4
        invariant
            0 <= index <= 4,
            red_count == plane_count(cdesc@, index as int, 0),
            green_count == plane_count(cdesc@, index as int, 1),
            blue_count == plane_count(cdesc@, index as int, 2),
            first_foreign_letter(cdesc@, index as int) is None,
            forall|k: int| 0 <= k < index ==> #[trigger] map@[k] == canonical_plane(cdesc@, k),
            map@.len() == 4,
        decreases 4 - index,
    {
        let letter = cdesc[index];
        proof {
            assert(red_count <= index && green_count <= index && blue_count <= index) by {
                lemma_plane_count_bound(cdesc@, index as int, 0);
                lemma_plane_count_bound(cdesc@, index as int, 1);
                lemma_plane_count_bound(cdesc@, index as int, 2);
            }
        }
        if letter == 0x52 || letter == 0x72 {
            red_count = red_count + 1;
            map[index] = 0;
        } else if letter == 0x42 || letter == 0x62 {
            blue_count = blue_count + 1;
            map[index] = 2;
        } else if letter == 0x47 || letter == 0x67 {
            let canonical: u8 = if green_count == 0 { 1 } else { 3 };
            green_count = green_count + 1;
            map[index] = canonical;
        } else if letter == 0 {
            map[index] = 3;
        } else {
            proof {
                assert(first_foreign_letter(cdesc@, index + 1) == Some(letter));
                lemma_first_foreign_stable(cdesc@, index + 1, 4);
            }
            return Err(LibRawError::NonRgbCfaDescriptor(letter));
        }
        index += 1;
    }
    if red_count != 1 || blue_count != 1 || green_count < 1 || green_count > 2 {
        return Err(LibRawError::UnsupportedRgbCfaDescriptor);
    }
    proof {
        assert(map@ =~= Seq::new(4, |i: int| canonical_plane(cdesc@, i)));
    }
    Ok(map)
}

proof fn lemma_first_foreign_stable(cdesc: Seq<u8>, n: int, m: int)
    requires
        0 <= n <= m,
        first_foreign_letter(cdesc, n) is Some,
    ensures
        first_foreign_letter(cdesc, m) == first_foreign_letter(cdesc, n),
    decreases m - n,
{
    if n < m {
        lemma_first_foreign_stable(cdesc, n, m - 1);
    }
}

proof fn lemma_plane_count_bound(cdesc: Seq<u8>, n: int, plane: u8)
    requires
        n >= 0,
    ensures
        plane_count(cdesc, n, plane) <= n,
    decreases n,
{
    if n > 0 {
        lemma_plane_count_bound(cdesc, n - 1, plane);
    }
}

/// The value a canonical plane receives: that of the last physical channel
/// mapped to it, or `fill`.
pub open spec fn canonical_value<T>(values: Seq<T>, map: Seq<u8>, plane: int, fill: T) -> T {
    if map[3] == plane {
        values[3]
    } else if map[2] == plane {
        values[2]
    } else if map[1] == plane {
        values[1]
    } else if map[0] == plane {
        values[0]
    } else {
        fill
    }
}

/// Moves per-channel values into canonical plane order.
pub fn canonicalize_values<T: Copy>(values: [T; 4], map: [u8; 4], fill: T) -> (r: [T; 4])
    requires
        forall|i: int| 0 <= i < 4 ==> #[trigger] map@[i] < 4,
    ensures
        forall|c: int| 0 <= c < 4 ==> #[trigger] r@[c] == canonical_value(values@, map@, c, fill),
{
    let mut out: [T; 4] = [fill, fill, fill, fill];
    let mut physical: usize = 0;
    while physical < 4
        invariant
            0 <= physical <= 4,
            out@.len() == 4,
            forall|i: int| 0 <= i < 4 ==> #[trigger] map@[i] < 4,
            forall|c: int|
                0 <= c < 4 ==> #[trigger] out@[c] == (if physical > 3 && map@[3] == c {
                    values@[3]
                } else if physical > 2 && map@[2] == c {
                    values@[2]
                } else if physical > 1 && map@[1] == c {
                    values@[1]
                } else if physical > 0 && map@[0] == c {
                    values@[0]
                } else {
                    fill
                }),
        decreases 4 - physical,
    {
        let slot = map[physical] as usize;
        out[slot] = values[physical];
        physical += 1;
    }
    out
}

pub open spec fn spec_logical_rgb_channel(cdesc: Seq<u8>, cfa_channel: int) -> Option<usize> {
    let letter = cdesc[if cfa_channel < 3 { cfa_channel } else { 3 }];
    match rgb_plane(letter) {
        Some(p) => Some(p as usize),
        None => None,
    }
}

/// The RGB channel (0, 1, 2) that a LibRaw colour channel describes;
/// channels past 3 read the last descriptor entry.
pub fn logical_rgb_channel(cdesc: [u8; 4], cfa_channel: usize) -> (r: Option<usize>)
    ensures
        r == spec_logical_rgb_channel(cdesc@, cfa_channel as int),
{
    let letter = cdesc[if cfa_channel < 3 { cfa_channel } else { 3 }];
    if letter == 0x52 || letter == 0x72 {
        Some(0)
    } else if letter == 0x47 || letter == 0x67 {
        Some(1)
    } else if letter == 0x42 || letter == 0x62 {
        Some(2)
    } else {
        None
    }
}

/// Euclid's greatest common divisor.
pub open spec fn spec_gcd(a: nat, b: nat) -> nat
    decreases b,
{
    if b == 0 { a } else { spec_gcd(b, a % b) }
}

/// The greatest common divisor, at least 1.
pub fn gcd_usize(a: usize, b: usize) -> (r: usize)
    ensures
        r as nat == (if spec_gcd(a as nat, b as nat) >= 1 { spec_gcd(a as nat, b as nat) } else { 1 }),
{
    let mut a = a;
    let mut b = b;
    let ghost start = spec_gcd(a as nat, b as nat);
    while b != 0
        invariant
            spec_gcd(a as nat, b as nat) == start,
        decreases b,
    {
        let remainder = a % b;
        a = b;
        b = remainder;
    }
    if a >= 1 { a } else { 1 }
}

/// The gcd divides both numbers.
pub proof fn lemma_gcd_divides(a: nat, b: nat)
    ensures
        spec_gcd(a, b) > 0 ==> a % spec_gcd(a, b) == 0 && b % spec_gcd(a, b) == 0,
        (a > 0 || b > 0) ==> spec_gcd(a, b) > 0,
    decreases b,
{
    if b > 0 {
        lemma_gcd_divides(b, a % b);
        let g = spec_gcd(b, a % b);
        if g > 0 {
            let q = a / b;
            let r = a % b;
            vstd::arithmetic::div_mod::lemma_fundamental_div_mod(a as int, b as int);
            vstd::arithmetic::div_mod::lemma_fundamental_div_mod(b as int, g as int);
            vstd::arithmetic::div_mod::lemma_fundamental_div_mod(r as int, g as int);
            let kb = b / g;
            let kr = r / g;
            assert(a == g * (q * kb + kr)) by (nonlinear_arith)
                requires
                    a == b * q + r,
                    b == g * kb + 0,
                    r == g * kr + 0,
            ;
            assert(q * kb + kr >= 0) by (nonlinear_arith)
                requires
                    q >= 0,
                    kb >= 0,
                    kr >= 0,
            ;
            vstd::arithmetic::div_mod::lemma_mod_multiples_basic((q * kb + kr) as int, g as int);
        }
    }
}

pub open spec fn spec_lcm_usize(a: usize, b: usize) -> usize {
    let a1: nat = if a >= 1 { a as nat } else { 1 };
    let b1: nat = if b >= 1 { b as nat } else { 1 };
    let g0 = spec_gcd(a1, b1);
    let g: nat = if g0 >= 1 { g0 } else { 1 };
    let product = (a as nat / g) * b1;
    if product > usize::MAX { usize::MAX } else { product as usize }
}

/// The least common multiple of `max(a, 1)`... computed as
/// `a / gcd(max(a, 1), max(b, 1)) * max(b, 1)`, saturated at `usize::MAX`.
pub fn lcm_usize(a: usize, b: usize) -> (r: usize)
    ensures
        r == spec_lcm_usize(a, b),
{
    let a1 = if a >= 1 { a } else { 1 };
    let b1 = if b >= 1 { b } else { 1 };
    let g = gcd_usize(a1, b1);
    let quotient = a / g;
    match quotient.checked_mul(b1) {
        Some(v) => v,
        None => usize::MAX,
    }
}

pub open spec fn spec_black_pattern_dimensions(cblack: Seq<u32>) -> Option<(usize, usize)> {
    if cblack.len() < 6 {
        None
    } else {
        let rows = cblack[4];
        let cols = cblack[5];
        if rows == 0 || cols == 0 {
            None
        } else if rows * cols > usize::MAX || 6 + rows * cols > usize::MAX {
            None
        } else if 6 + rows * cols > cblack.len() {
            None
        } else {
            Some((rows as usize, cols as usize))
        }
    }
}

/// The rows and columns of the repeating black pattern that follows the
/// six fixed entries of `cblack`, when the pattern is non-empty and fits.
pub fn black_pattern_dimensions(cblack: &[u32]) -> (r: Option<(usize, usize)>)
    ensures
        r == spec_black_pattern_dimensions(cblack@),
{
    if cblack.len() < 6 {
        return None;
    }
    let rows = cblack[4] as usize;
    let cols = cblack[5] as usize;
    if rows == 0 || cols == 0 {
        return None;
    }
    let values = match rows.checked_mul(cols) {
        Some(v) => v,
        None => return None,
    };
    let end = match values.checked_add(6) {
        Some(v) => v,
        None => return None,
    };
    if end <= cblack.len() {
        Some((rows, cols))
    } else {
        None
    }
}

/// The pattern entry for active position `(x, y)`, when there is one.
pub open spec fn black_pattern_offset(cblack: Seq<u32>, active_x: int, active_y: int) -> u32 {
    match spec_black_pattern_dimensions(cblack) {
        None => 0,
        Some((rows, cols)) => {
            let index = (active_y % (rows as int)) * cols + active_x % (cols as int) + 6;
            if index > usize::MAX || index >= cblack.len() { 0 } else { cblack[index] }
        },
    }
}

pub open spec fn spec_effective_black_level(black: u32, cblack: Seq<u32>, channel: int, active_x: int, active_y: int) -> u32 {
    let slot = if channel < 3 { channel } else { 3 };
    let channel_offset = if slot < cblack.len() { cblack[slot] } else { 0 };
    let total = black + channel_offset + black_pattern_offset(cblack, active_x, active_y);
    if total > u32::MAX { u32::MAX } else { total as u32 }
}

/// The black level of a sensor position: the shared level plus the
/// channel's offset plus the repeating pattern entry at the active-area
/// position, saturated at `u32::MAX`.
pub fn effective_black_level(black: u32, cblack: &[u32], channel: usize, active_x: usize, active_y: usize) -> (r: u32)
    ensures
        r == spec_effective_black_level(black, cblack@, channel as int, active_x as int, active_y as int),
{
    let slot = if channel < 3 { channel } else { 3 };
    let channel_offset = if slot < cblack.len() { cblack[slot] } else { 0 };
    let pattern_offset = match black_pattern_dimensions(cblack) {
        None => 0,
        Some((rows, cols)) => {
            proof {
                assert((active_y % rows) * cols <= (rows - 1) * cols) by (nonlinear_arith)
                    requires
                        0 <= active_y % rows < rows,
                        cols >= 0,
                ;
                assert((rows - 1) * cols + cols == rows * cols) by (nonlinear_arith);
            }
            let index = (active_y % rows) * cols + active_x % cols + 6;
            if index < cblack.len() {
                cblack[index]
            } else {
                0
            }
        },
    };
    let total = black as u64 + channel_offset as u64 + pattern_offset as u64;
    if total > u32::MAX as u64 {
        u32::MAX
    } else {
        total as u32
    }
}

/// The first candidate with the selected preview's size and length and a
/// known flip.
pub open spec fn spec_matching_orientation(selected: (u16, u16, u32), candidates: Seq<(u16, u16, u32, u16)>) -> Option<i32>
    decreases candidates.len(),
{
    if candidates.len() == 0 {
        None
    } else {
        let c = candidates[0];
        if c.3 != u16::MAX && c.0 == selected.0 && c.1 == selected.1 && c.2 == selected.2 {
            Some(c.3 as i32)
        } else {
            spec_matching_orientation(selected, candidates.drop_first())
        }
    }
}

/// The flip of the first listed preview that matches the selected one in
/// width, height and length and has a known flip.
pub fn matching_thumbnail_orientation(selected: (u16, u16, u32), candidates: &[(u16, u16, u32, u16)]) -> (r:
    Option<i32>)
    ensures
        r == spec_matching_orientation(selected, candidates@),
{
    let mut i: usize = 0;
    proof {
        assert(candidates@.subrange(0, candidates@.len() as int) =~= candidates@);
    }
    while i < candidates.len()
        invariant
            0 <= i <= candidates@.len(),
            spec_matching_orientation(selected, candidates@.subrange(i as int, candidates@.len() as int))
                == spec_matching_orientation(selected, candidates@),
        decreases candidates@.len() - i,
    {
        let c = candidates[i];
        proof {
            assert(candidates@.subrange(i as int, candidates@.len() as int).drop_first() =~= candidates@.subrange(
                i + 1,
                candidates@.len() as int,
            ));
        }
        if c.3 != u16::MAX && c.0 == selected.0 && c.1 == selected.1 && c.2 == selected.2 {
            return Some(c.3 as i32);
        }
        i += 1;
    }
    proof {
        assert(candidates@.subrange(i as int, candidates@.len() as int) =~= Seq::<(u16, u16, u32, u16)>::empty());
    }
    None
}

/// The format of an embedded preview.
#[derive(Clone, Copy, Debug, PartialEq, Eq, Structural)]
pub enum ThumbnailFormat {
    Jpeg,
    Bitmap,
    /// Another LibRaw format code.
    Other(u32),
}

pub open spec fn spec_validate_thumbnail_metadata(
    format: ThumbnailFormat,
    width: u16,
    height: u16,
    length: u32,
    colors: i32,
) -> Result<(), LibRawError> {
    if length == 0 || length > MAX_EMBEDDED_THUMBNAIL_BYTES {
        Err(LibRawError::PreviewLengthOutOfRange)
    } else {
        match format {
            ThumbnailFormat::Jpeg => if (width != 0 || height != 0) && !(width > 0 && height > 0) {
                Err(LibRawError::PreviewDimensionsOutOfRange)
            } else {
                Ok(())
            },
            ThumbnailFormat::Bitmap => if !(width > 0 && height > 0) {
                Err(LibRawError::PreviewDimensionsOutOfRange)
            } else if !(colors == 1 || colors == 3) {
                Err(LibRawError::PreviewChannels(colors))
            } else if width * height > usize::MAX || width * height * colors > usize::MAX {
                Err(LibRawError::PreviewByteCountOverflow)
            } else if width * height * colors > length || width * height * colors > MAX_THUMBNAIL_DECODE_BYTES {
                Err(LibRawError::PreviewByteCountMismatch)
            } else {
                Ok(())
            },
            ThumbnailFormat::Other(code) => Err(LibRawError::UnsupportedPreviewFormat(code)),
        }
    }
}

/// Checks the preview metadata that LibRaw reports before the preview is
/// unpacked: the payload length, the dimensions (every `u16` edge is
/// within [`MAX_THUMBNAIL_SOURCE_EDGE`]), and for a bitmap the channel
/// count and the bytes it needs.
pub fn validate_embedded_thumbnail_metadata(
    format: ThumbnailFormat,
    width: u16,
    height: u16,
    length: u32,
    colors: i32,
) -> (r: Result<(), LibRawError>)
    ensures
        r == spec_validate_thumbnail_metadata(format, width, height, length, colors),
{
    let length_bytes = length as usize;
    if length_bytes == 0 || length_bytes > MAX_EMBEDDED_THUMBNAIL_BYTES {
        return Err(LibRawError::PreviewLengthOutOfRange);
    }
    match format {
        ThumbnailFormat::Jpeg => {
            if (width != 0 || height != 0) && !(width > 0 && height > 0 && (width as u32)
                <= MAX_THUMBNAIL_SOURCE_EDGE && (height as u32) <= MAX_THUMBNAIL_SOURCE_EDGE) {
                return Err(LibRawError::PreviewDimensionsOutOfRange);
            }
            Ok(())
        },
        ThumbnailFormat::Bitmap => {
            if !(width > 0 && height > 0 && (width as u32) <= MAX_THUMBNAIL_SOURCE_EDGE && (height as u32)
                <= MAX_THUMBNAIL_SOURCE_EDGE) {
                return Err(LibRawError::PreviewDimensionsOutOfRange);
            }
            if !(colors == 1 || colors == 3) {
                return Err(LibRawError::PreviewChannels(colors));
            }
            let pixels = match (width as usize).checked_mul(height as usize) {
                Some(v) => v,
                None => return Err(LibRawError::PreviewByteCountOverflow),
            };
            let expected = match pixels.checked_mul(colors as usize) {
                Some(v) => v,
                None => return Err(LibRawError::PreviewByteCountOverflow),
            };
            if expected > length_bytes || expected as u64 > MAX_THUMBNAIL_DECODE_BYTES {
                return Err(LibRawError::PreviewByteCountMismatch);
            }
            Ok(())
        },
        ThumbnailFormat::Other(code) => Err(LibRawError::UnsupportedPreviewFormat(code)),
    }
}

/// One reported area is either unset (both edges zero) or within the
/// sensor limits.
pub open spec fn area_within_limits(width: u16, height: u16) -> bool {
    (width == 0 && height == 0) || (width > 0 && height > 0 && width <= MAX_SENSOR_EDGE && height
        <= MAX_SENSOR_EDGE)
}

pub open spec fn spec_validate_thumbnail_geometry(
    active_width: u16,
    active_height: u16,
    sensor_width: u16,
    sensor_height: u16,
) -> Result<(), LibRawError> {
    if !area_within_limits(active_width, active_height) {
        Err(LibRawError::ActiveDimensionsOutOfRange)
    } else if !area_within_limits(sensor_width, sensor_height) {
        Err(LibRawError::SensorDimensionsOutOfRange)
    } else {
        Ok(())
    }
}

/// Checks the active and sensor dimensions of a file opened for its
/// preview: each is unset or within the sensor limits (their pixel counts
/// then fit in `u32`).
pub fn validate_opened_thumbnail_geometry(
    active_width: u16,
    active_height: u16,
    sensor_width: u16,
    sensor_height: u16,
) -> (r: Result<(), LibRawError>)
    ensures
        r == spec_validate_thumbnail_geometry(active_width, active_height, sensor_width, sensor_height),
{
    let aw = active_width as u32;
    let ah = active_height as u32;
    if aw != 0 || ah != 0 {
        if !(aw > 0 && ah > 0 && aw <= MAX_SENSOR_EDGE && ah <= MAX_SENSOR_EDGE) {
            return Err(LibRawError::ActiveDimensionsOutOfRange);
        }
        proof {
            assert(aw * ah <= 40_000 * 40_000) by (nonlinear_arith)
                requires
                    aw <= 40_000,
                    ah <= 40_000,
            ;
        }
        if aw.checked_mul(ah).is_none() {
            return Err(LibRawError::PixelCountOverflow);
        }
    }
    let sw = sensor_width as u32;
    let sh = sensor_height as u32;
    if sw != 0 || sh != 0 {
        if !(sw > 0 && sh > 0 && sw <= MAX_SENSOR_EDGE && sh <= MAX_SENSOR_EDGE) {
            return Err(LibRawError::SensorDimensionsOutOfRange);
        }
        proof {
            assert(sw * sh <= 40_000 * 40_000) by (nonlinear_arith)
                requires
                    sw <= 40_000,
                    sh <= 40_000,
            ;
        }
        if sw.checked_mul(sh).is_none() {
            return Err(LibRawError::PixelCountOverflow);
        }
    }
    Ok(())
}

/// The orientation codes that the RAW path can apply.
pub open spec fn supported_orientation(flip: i32) -> bool {
    flip == 0 || flip == 3 || flip == 5 || flip == 6
}

/// Refuses a LibRaw orientation code that the RAW path cannot apply.
pub fn check_orientation(flip: i32) -> (r: Result<(), LibRawError>)
    ensures
        r is Ok <==> supported_orientation(flip),
        r is Err ==> r == Err::<(), LibRawError>(LibRawError::UnsupportedOrientation(flip)),
{
    if flip == 0 || flip == 3 || flip == 5 || flip == 6 {
        Ok(())
    } else {
        Err(LibRawError::UnsupportedOrientation(flip))
    }
}

pub open spec fn spec_validate_raw_geometry(
    active_width: u16,
    active_height: u16,
    sensor_width: u16,
    sensor_height: u16,
    raw_pitch: u32,
) -> Result<(), LibRawError> {
    match spec_validate_raw_dimensions(active_width as u32, active_height as u32) {
        Err(e) => Err(LibRawError::RawDimensions(e)),
        Ok(_) => if sensor_width == 0 || sensor_height == 0 {
            Err(LibRawError::EmptySensor)
        } else if sensor_width > MAX_SENSOR_EDGE || sensor_height > MAX_SENSOR_EDGE {
            Err(LibRawError::SensorEdgeTooLong)
        } else if sensor_width * sensor_height > MAX_SENSOR_PIXELS {
            Err(LibRawError::TooManySensorPixels)
        } else if !(raw_pitch == 0 || (raw_pitch >= 2 * sensor_width && raw_pitch <= MAX_RAW_PITCH)) {
            Err(LibRawError::InvalidRawPitch)
        } else {
            Ok(())
        },
    }
}

/// Checks the geometry of a file opened for unpacking: the active area is
/// a valid RAW, the sensor is non-empty and within the edge and pixel
/// limits, and the row pitch is unset or holds a row without exceeding
/// 1 GiB.
pub fn validate_opened_raw_geometry(
    active_width: u16,
    active_height: u16,
    sensor_width: u16,
    sensor_height: u16,
    raw_pitch: u32,
) -> (r: Result<(), LibRawError>)
    ensures
        r == spec_validate_raw_geometry(active_width, active_height, sensor_width, sensor_height, raw_pitch),
{
    match validate_raw_dimensions(active_width as u32, active_height as u32) {
        Err(e) => return Err(LibRawError::RawDimensions(e)),
        Ok(_) => {},
    }
    let sw = sensor_width as u32;
    let sh = sensor_height as u32;
    if !(sw > 0 && sh > 0) {
        return Err(LibRawError::EmptySensor);
    }
    if !(sw <= MAX_SENSOR_EDGE && sh <= MAX_SENSOR_EDGE) {
        return Err(LibRawError::SensorEdgeTooLong);
    }
    proof {
        assert(sw * sh <= 40_000 * 40_000) by (nonlinear_arith)
            requires
                sw <= 40_000,
                sh <= 40_000,
        ;
    }
    let pixels = (sw as u64) * (sh as u64);
    if pixels > MAX_SENSOR_PIXELS {
        return Err(LibRawError::TooManySensorPixels);
    }
    let minimum_pitch = (sw as u64) * 2;
    let pitch = raw_pitch as u64;
    if !(pitch == 0 || (pitch >= minimum_pitch && pitch <= MAX_RAW_PITCH)) {
        return Err(LibRawError::InvalidRawPitch);
    }
    Ok(())
}


/// The decoded row pitch in bytes: the stated pitch, or one row of samples.
pub open spec fn effective_pitch(raw_width: u32, raw_pitch: usize) -> int {
    if raw_pitch == 0 { raw_width * 2 } else { raw_pitch as int }
}

/// The pitch is usable: at least a row of samples and whole samples.
pub open spec fn pitch_usable(raw_width: u32, raw_pitch: usize) -> bool {
    raw_width * 2 <= usize::MAX && effective_pitch(raw_width, raw_pitch) >= raw_width * 2 && effective_pitch(
        raw_width,
        raw_pitch,
    ) % 2 == 0
}

/// The output size of a `width` x `height` area under `flip`: 5 and 6
/// swap the edges.
pub open spec fn spec_oriented_dimensions(width: int, height: int, flip: i32) -> (int, int) {
    if flip == 5 || flip == 6 { (height, width) } else { (width, height) }
}

/// The oriented active pixels: output pixel `(x, y)` holds the decoded
/// sample at the crop origin plus its oriented source position, rows
/// `pitch / 2` samples apart.
pub open spec fn oriented_active_pixels(
    raw: Seq<u16>,
    pitch_samples: int,
    crop_x: int,
    crop_y: int,
    width: int,
    height: int,
    flip: i32,
) -> Seq<u16> {
    let (out_width, out_height) = spec_oriented_dimensions(width, height, flip);
    Seq::new(
        (out_width * out_height) as nat,
        |i: int| {
            let (sx, sy) = spec_oriented_source_pos(i % out_width, i / out_width, width, height, flip);
            raw[(crop_y + sy) * pitch_samples + crop_x + sx]
        },
    )
}

pub open spec fn spec_copy_active_pixels(
    raw: Seq<u16>,
    raw_width: u32,
    raw_height: u32,
    crop_x: u32,
    crop_y: u32,
    width: u32,
    height: u32,
    raw_pitch: usize,
    flip: i32,
) -> Result<Seq<u16>, LibRawError> {
    let pitch = effective_pitch(raw_width, raw_pitch);
    let (out_width, out_height) = spec_oriented_dimensions(width as int, height as int, flip);
    if raw_width * 2 > usize::MAX {
        Err(LibRawError::RowSizeOverflow)
    } else if pitch < raw_width * 2 {
        Err(LibRawError::PitchTooSmall)
    } else if pitch % 2 != 0 {
        Err(LibRawError::PitchMisaligned)
    } else if crop_x + width > usize::MAX || crop_y + height > usize::MAX {
        Err(LibRawError::CropOverflow)
    } else if crop_y + height > raw_height || crop_x + width > raw_width {
        Err(LibRawError::CropOutsideBuffer)
    } else if out_width * out_height > usize::MAX {
        Err(LibRawError::OrientedSizeOverflow)
    } else {
        match spec_validate_raw_dimensions(out_width as u32, out_height as u32) {
            Err(e) => Err(LibRawError::RawDimensions(e)),
            Ok(_) => Ok(oriented_active_pixels(
                raw,
                pitch / 2,
                crop_x as int,
                crop_y as int,
                width as int,
                height as int,
                flip,
            )),
        }
    }
}

/// Copies the active area out of a decoded sensor buffer of `raw_height`
/// rows, `raw_pitch` bytes apart (0: one row of samples), turning it by
/// `flip`; refused for an unusable pitch, a crop outside the buffer, or an
/// oriented size that is not a valid RAW.
pub fn copy_active_pixels(
    raw: &[u16],
    raw_width: u32,
    raw_height: u32,
    crop_x: u32,
    crop_y: u32,
    width: u32,
    height: u32,
    raw_pitch: usize,
    flip: i32,
) -> (r: Result<Vec<u16>, LibRawError>)
    requires
        pitch_usable(raw_width, raw_pitch) ==> raw@.len() >= raw_height * (effective_pitch(raw_width, raw_pitch) / 2),
    ensures
        (match r {
            Ok(pixels) => Ok(pixels@),
            Err(e) => Err(e),
        }) == spec_copy_active_pixels(raw@, raw_width, raw_height, crop_x, crop_y, width, height, raw_pitch, flip),
{
    let len = raw.len();
    let row_bytes = match (raw_width as usize).checked_mul(2) {
        Some(v) => v,
        None => return Err(LibRawError::RowSizeOverflow),
    };
    let pitch = if raw_pitch == 0 { row_bytes } else { raw_pitch };
    if pitch < row_bytes {
        return Err(LibRawError::PitchTooSmall);
    }
    if pitch % 2 != 0 {
        return Err(LibRawError::PitchMisaligned);
    }
    let crop_right = match (crop_x as usize).checked_add(width as usize) {
        Some(v) => v,
        None => return Err(LibRawError::CropOverflow),
    };
    let crop_bottom = match (crop_y as usize).checked_add(height as usize) {
        Some(v) => v,
        None => return Err(LibRawError::CropOverflow),
    };
    if crop_bottom > raw_height as usize || crop_right > raw_width as usize {
        return Err(LibRawError::CropOutsideBuffer);
    }
    let (out_width, out_height) = if flip == 5 || flip == 6 {
        (height as usize, width as usize)
    } else {
        (width as usize, height as usize)
    };
    let output_len = match out_width.checked_mul(out_height) {
        Some(v) => v,
        None => return Err(LibRawError::OrientedSizeOverflow),
    };
    match validate_raw_dimensions(out_width as u32, out_height as u32) {
        Err(e) => return Err(LibRawError::RawDimensions(e)),
        Ok(_) => {},
    }
    let pitch_samples = pitch / 2;
    let ghost expected = oriented_active_pixels(
        raw@,
        pitch_samples as int,
        crop_x as int,
        crop_y as int,
        width as int,
        height as int,
        flip,
    );
    proof {
        assert(raw_height * pitch_samples <= len);
    }
    let mut pixels: Vec<u16> = Vec::new();
    let mut y: usize = 0;
    while y < out_height
        invariant
            len == raw@.len(),
            raw_height * pitch_samples <= len,
            raw_width <= pitch_samples,
            crop_x + width <= raw_width,
            crop_y + height <= raw_height,
            (out_width as int, out_height as int) == spec_oriented_dimensions(width as int, height as int, flip),
            output_len == out_width * out_height,
            expected == oriented_active_pixels(
                raw@,
                pitch_samples as int,
                crop_x as int,
                crop_y as int,
                width as int,
                height as int,
                flip,
            ),
            0 <= y <= out_height,
            pixels@ == expected.take(y * out_width),
        decreases out_height - y,
    {
        proof {
            assert(y * out_width + out_width <= out_width * out_height) by (nonlinear_arith)
                requires
                    y + 1 <= out_height,
                    out_width >= 0,
            ;
        }
        let mut x: usize = 0;
        while x < out_width
            invariant
                len == raw@.len(),
                raw_height * pitch_samples <= len,
                raw_width <= pitch_samples,
                crop_x + width <= raw_width,
                crop_y + height <= raw_height,
                (out_width as int, out_height as int) == spec_oriented_dimensions(width as int, height as int, flip),
                output_len == out_width * out_height,
                y * out_width + out_width <= out_width * out_height,
                expected == oriented_active_pixels(
                    raw@,
                    pitch_samples as int,
                    crop_x as int,
                    crop_y as int,
                    width as int,
                    height as int,
                    flip,
                ),
                y < out_height,
                0 <= x <= out_width,
                pixels@ == expected.take(y * out_width + x),
            decreases out_width - x,
        {
            let (sx, sy) = oriented_source_pos(x, y, width as usize, height as usize, flip);
            let rx = crop_x as usize + sx;
            let ry = crop_y as usize + sy;
            proof {
                assert(ry * pitch_samples + pitch_samples <= raw_height * pitch_samples) by (nonlinear_arith)
                    requires
                        ry + 1 <= raw_height,
                        pitch_samples >= 0,
                ;
                lemma_row_major_join_local(x as int, y as int, out_width as int);
                assert(expected.take(y * out_width + x + 1) =~= expected.take(y * out_width + x).push(
                    expected[y * out_width + x],
                ));
            }
            pixels.push(raw[ry * pitch_samples + rx]);
            x += 1;
        }
        y += 1;
        proof {
            assert((y - 1) * out_width + out_width == y * out_width) by (nonlinear_arith);
        }
    }
    proof {
        assert(expected.take(out_height * out_width) =~= expected) by {
            assert(out_height * out_width == out_width * out_height) by (nonlinear_arith);
        }
    }
    Ok(pixels)
}

proof fn lemma_row_major_join_local(x: int, y: int, width: int)
    requires
        width > 0,
        0 <= x < width,
        0 <= y,
    ensures
        (y * width + x) % width == x,
        (y * width + x) / width == y,
{
    vstd::arithmetic::div_mod::lemma_fundamental_div_mod_converse(y * width + x, width, y, x);
}

/// The size of the repeating colour and black-level tile of an oriented
/// sensor: the least common multiple of the CFA period and the black
/// pattern's edge in each direction, turned with the image and at most the
/// image.
pub open spec fn spec_metadata_period(
    cfa_kind: CfaKind,
    cblack: Seq<u32>,
    out_width: usize,
    out_height: usize,
    flip: i32,
) -> (usize, usize) {
    let cfa_period: usize = match cfa_kind {
        CfaKind::Bayer => 2,
        CfaKind::XTrans => 6,
    };
    let (rows, cols) = match spec_black_pattern_dimensions(cblack) {
        Some(d) => d,
        None => (1usize, 1usize),
    };
    let lx = spec_lcm_usize(cfa_period, cols);
    let ly = spec_lcm_usize(cfa_period, rows);
    let px: usize = if lx >= 1 { lx } else { 1 };
    let py: usize = if ly >= 1 { ly } else { 1 };
    if flip == 5 || flip == 6 {
        (if py <= out_width { py } else { out_width }, if px <= out_height { px } else { out_height })
    } else {
        (if px <= out_width { px } else { out_width }, if py <= out_height { py } else { out_height })
    }
}

pub fn metadata_period(cfa_kind: CfaKind, cblack: &[u32], out_width: usize, out_height: usize, flip: i32) -> (r: (
    usize,
    usize,
))
    ensures
        r == spec_metadata_period(cfa_kind, cblack@, out_width, out_height, flip),
{
    let cfa_period: usize = match cfa_kind {
        CfaKind::Bayer => 2,
        CfaKind::XTrans => 6,
    };
    let (rows, cols) = match black_pattern_dimensions(cblack) {
        Some(d) => d,
        None => (1, 1),
    };
    let lx = lcm_usize(cfa_period, cols);
    let ly = lcm_usize(cfa_period, rows);
    let px = if lx >= 1 { lx } else { 1 };
    let py = if ly >= 1 { ly } else { 1 };
    if flip == 5 || flip == 6 {
        (if py <= out_width { py } else { out_width }, if px <= out_height { px } else { out_height })
    } else {
        (if px <= out_width { px } else { out_width }, if py <= out_height { py } else { out_height })
    }
}

/// Why an input file is refused before it is opened.
#[derive(Clone, Copy, Debug, PartialEq, Eq, Structural)]
pub enum InputFileError {
    NotRegularFile,
    Empty,
    TooLarge { bytes: u64, maximum: u64 },
}

/// An input file must be a regular file of at least one byte and at most
/// `maximum` bytes; the first rule broken is reported.
pub open spec fn spec_check_input_file(is_file: bool, bytes: u64, maximum: u64) -> Result<(), InputFileError> {
    if !is_file {
        Err(InputFileError::NotRegularFile)
    } else if bytes == 0 {
        Err(InputFileError::Empty)
    } else if bytes > maximum {
        Err(InputFileError::TooLarge { bytes, maximum })
    } else {
        Ok(())
    }
}

/// Checks what the file system reports of an input file: whether it is a
/// regular file, and its length.
pub fn check_input_file(is_file: bool, bytes: u64, maximum: u64) -> (r: Result<(), InputFileError>)
    ensures
        r == spec_check_input_file(is_file, bytes, maximum),
{
    if !is_file {
        Err(InputFileError::NotRegularFile)
    } else if bytes == 0 {
        Err(InputFileError::Empty)
    } else if bytes > maximum {
        Err(InputFileError::TooLarge { bytes, maximum })
    } else {
        Ok(())
    }
}

/// The refusal as reported for a file described by `label`.
pub open spec fn input_file_error_text(error: InputFileError, label: Seq<char>) -> Seq<char> {
    match error {
        InputFileError::NotRegularFile => label + " is not a regular file"@,
        InputFileError::Empty => label + " is empty"@,
        InputFileError::TooLarge { bytes, maximum } => label + " is "@ + decimal(bytes as nat)
            + " bytes; the safe input limit is "@ + decimal(maximum as nat),
    }
}

impl InputFileError {
    pub fn message(&self, label: &str) -> (r: String)
        ensures
            r@ == input_file_error_text(*self, label@),
    {
        let mut text = String::from_str(label);
        match *self {
            InputFileError::NotRegularFile => text.append(" is not a regular file"),
            InputFileError::Empty => text.append(" is empty"),
            InputFileError::TooLarge { bytes, maximum } => {
                text.append(" is ");
                append_decimal(&mut text, bytes);
                text.append(" bytes; the safe input limit is ");
                append_decimal(&mut text, maximum);
            },
        }
        text
    }
}

} // verus!
