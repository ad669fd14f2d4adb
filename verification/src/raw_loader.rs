//! RAW input limits, profile modes, supported file names and the validated
//! container for AI-denoised sensor data.
use vstd::prelude::*;
use crate::int_util::{sat_mul_usize, saturating_mul_usize};
use crate::text::{ascii_lower, chars_of, chars_eq_ignore_ascii_case, eq_ignore_ascii_case};

verus! {

#[derive(Clone, Copy, Debug, PartialEq, Eq, Structural)]
pub enum CameraProfileMode {
    MatrixOnly,
    DcpProfiles,
    Automatic,
}

impl Default for CameraProfileMode {
    fn default() -> (r: Self)
        ensures
            r == CameraProfileMode::Automatic,
    {
        CameraProfileMode::Automatic
    }
}

impl CameraProfileMode {
    pub fn label(self) -> (r: &'static str)
        ensures
            r@ == (match self {
                CameraProfileMode::MatrixOnly => "Embedded matrix only"@,
                CameraProfileMode::DcpProfiles => "Use DCP profiles"@,
                CameraProfileMode::Automatic => "Automatic"@,
            }),
    {
        match self {
            CameraProfileMode::MatrixOnly => "Embedded matrix only",
            CameraProfileMode::DcpProfiles => "Use DCP profiles",
            CameraProfileMode::Automatic => "Automatic",
        }
    }

    pub fn cache_key(self) -> (r: &'static str)
        ensures
            r@ == (match self {
                CameraProfileMode::MatrixOnly => "matrix"@,
                CameraProfileMode::DcpProfiles => "dcp"@,
                CameraProfileMode::Automatic => "auto"@,
            }),
    {
        match self {
            CameraProfileMode::MatrixOnly => "matrix",
            CameraProfileMode::DcpProfiles => "dcp",
            CameraProfileMode::Automatic => "auto",
        }
    }

    /// Only an explicit DCP selection prefers external profiles; automatic
    /// mode starts from the embedded matrix.
    pub fn prefers_external_dcp(self) -> (r: bool)
        ensures
            r == (self == CameraProfileMode::DcpProfiles),
    {
        match self {
            CameraProfileMode::DcpProfiles => true,
            _ => false,
        }
    }
}

#[derive(Clone, Copy, Debug, PartialEq, Eq, Structural)]
pub enum CfaKind {
    Bayer,
    XTrans,
}

impl Default for CfaKind {
    fn default() -> (r: Self)
        ensures
            r == CfaKind::Bayer,
    {
        CfaKind::Bayer
    }
}

/// Largest accepted RAW edge.
pub const MAX_RAW_EDGE: u32 = 32_768;
/// Largest accepted RAW pixel count on desktop builds; the dimension
/// checks of this library apply it.
pub const MAX_RAW_PIXELS: u64 = 120_000_000;
/// Largest accepted RAW pixel count on Android devices, where memory is
/// tighter; the dimension checks of this library apply the desktop limit.
pub const MAX_RAW_PIXELS_ANDROID: u64 = 50_000_000;

/// Why RAW dimensions were rejected.
#[derive(Clone, Copy, Debug, PartialEq, Eq, Structural)]
pub enum RawDimensionError {
    /// A dimension is zero.
    Empty,
    /// An edge is longer than [`MAX_RAW_EDGE`].
    EdgeTooLong,
    /// The pixel count exceeds [`MAX_RAW_PIXELS`].
    TooManyPixels,
    /// The pixel count does not fit this platform's `usize`.
    PixelCountOverflow,
}

pub open spec fn spec_validate_raw_dimensions(width: u32, height: u32) -> Result<usize, RawDimensionError> {
    if width == 0 || height == 0 {
        Err(RawDimensionError::Empty)
    } else if width > MAX_RAW_EDGE || height > MAX_RAW_EDGE {
        Err(RawDimensionError::EdgeTooLong)
    } else if width as int * height as int > MAX_RAW_PIXELS {
        Err(RawDimensionError::TooManyPixels)
    } else if width as int * height as int > usize::MAX {
        Err(RawDimensionError::PixelCountOverflow)
    } else {
        Ok((width as int * height as int) as usize)
    }
}

/// The pixel count of a RAW, or why its dimensions are refused: both must be
/// non-zero, neither over the edge limit, and the count within the pixel
/// limit.
pub fn validate_raw_dimensions(width: u32, height: u32) -> (r: Result<usize, RawDimensionError>)
    ensures
        r == spec_validate_raw_dimensions(width, height),
{
    if width == 0 || height == 0 {
        return Err(RawDimensionError::Empty);
    }
    if width > MAX_RAW_EDGE || height > MAX_RAW_EDGE {
        return Err(RawDimensionError::EdgeTooLong);
    }
    proof {
        assert(width as int * height as int <= 32_768 * 32_768) by (nonlinear_arith)
            requires
                width <= 32_768,
                height <= 32_768,
        ;
    }
    let pixels = (width as u64) * (height as u64);
    if pixels > MAX_RAW_PIXELS {
        return Err(RawDimensionError::TooManyPixels);
    }
    if pixels > usize::MAX as u64 {
        return Err(RawDimensionError::PixelCountOverflow);
    }
    Ok(pixels as usize)
}

/// Decoded samples of an AI denoiser: either camera RGB half floats (three
/// per pixel) or one Bayer CFA sample per pixel.
#[derive(Clone, Debug)]
pub struct AiDenoisedImage {
    pub width: u32,
    pub height: u32,
    pub rgb16f: Vec<u16>,
    pub raw_cfa16: Vec<u16>,
}

/// Why a denoised image was refused.
#[derive(Clone, Copy, Debug, PartialEq, Eq, Structural)]
pub enum AiDenoiseError {
    DimensionsOverflow,
    LengthMismatch,
}

impl AiDenoisedImage {
    /// Camera RGB half-float samples; needs non-zero dimensions and exactly
    /// three samples per pixel.
    pub fn new(width: u32, height: u32, rgb16f: Vec<u16>) -> (r: Result<Self, AiDenoiseError>)
        ensures
            width as int * height as int * 3 > usize::MAX ==> r == Err::<Self, AiDenoiseError>(
                AiDenoiseError::DimensionsOverflow,
            ),
            width as int * height as int * 3 <= usize::MAX ==> (if width > 0 && height > 0 && rgb16f@.len()
                == width as int * height as int * 3 {
                r matches Ok(image) && image.width == width && image.height == height && image.rgb16f@
                    == rgb16f@ && image.raw_cfa16@.len() == 0
            } else {
                r == Err::<Self, AiDenoiseError>(AiDenoiseError::LengthMismatch)
            }),
    {
        proof {
            assert(width as int * height as int <= 0xffff_ffff * 0xffff_ffff) by (nonlinear_arith)
                requires
                    width <= 0xffff_ffff,
                    height <= 0xffff_ffff,
            ;
        }
        let pixels = (width as u64) * (height as u64);
        let expected = match pixels.checked_mul(3) {
            Some(e) => e,
            None => return Err(AiDenoiseError::DimensionsOverflow),
        };
        if expected > usize::MAX as u64 {
            return Err(AiDenoiseError::DimensionsOverflow);
        }
        if !(width > 0 && height > 0 && rgb16f.len() == expected as usize) {
            return Err(AiDenoiseError::LengthMismatch);
        }
        Ok(AiDenoisedImage { width, height, rgb16f, raw_cfa16: Vec::new() })
    }

    /// One Bayer CFA sample per pixel; needs non-zero dimensions.
    pub fn new_bayer_cfa(width: u32, height: u32, raw_cfa16: Vec<u16>) -> (r: Result<Self, AiDenoiseError>)
        ensures
            width as int * height as int > usize::MAX ==> r == Err::<Self, AiDenoiseError>(
                AiDenoiseError::DimensionsOverflow,
            ),
            width as int * height as int <= usize::MAX ==> (if width > 0 && height > 0 && raw_cfa16@.len()
                == width as int * height as int {
                r matches Ok(image) && image.width == width && image.height == height && image.raw_cfa16@
                    == raw_cfa16@ && image.rgb16f@.len() == 0
            } else {
                r == Err::<Self, AiDenoiseError>(AiDenoiseError::LengthMismatch)
            }),
    {
        proof {
            assert(width as int * height as int <= 0xffff_ffff * 0xffff_ffff) by (nonlinear_arith)
                requires
                    width <= 0xffff_ffff,
                    height <= 0xffff_ffff,
            ;
        }
        let pixels = (width as u64) * (height as u64);
        if pixels > usize::MAX as u64 {
            return Err(AiDenoiseError::DimensionsOverflow);
        }
        if !(width > 0 && height > 0 && raw_cfa16.len() == pixels as usize) {
            return Err(AiDenoiseError::LengthMismatch);
        }
        Ok(AiDenoisedImage { width, height, rgb16f: Vec::new(), raw_cfa16 })
    }

    /// The Bayer samples, when this is a CFA result.
    pub fn bayer_cfa(&self) -> (r: Option<&[u16]>)
        ensures
            self.raw_cfa16@.len() == 0 ==> r.is_none(),
            self.raw_cfa16@.len() > 0 ==> (r matches Some(s) && s@ == self.raw_cfa16@),
    {
        if self.raw_cfa16.len() != 0 {
            Some(self.raw_cfa16.as_slice())
        } else {
            None
        }
    }

    /// The camera RGB samples, when this is an RGB result.
    pub fn camera_rgb16f(&self) -> (r: Option<&[u16]>)
        ensures
            self.rgb16f@.len() == 0 ==> r.is_none(),
            self.rgb16f@.len() > 0 ==> (r matches Some(s) && s@ == self.rgb16f@),
    {
        if self.rgb16f.len() != 0 {
            Some(self.rgb16f.as_slice())
        } else {
            None
        }
    }

    /// The CFA samples if present, otherwise the RGB samples.
    pub fn payload(&self) -> (r: &[u16])
        ensures
            r@ == if self.raw_cfa16@.len() > 0 { self.raw_cfa16@ } else { self.rgb16f@ },
    {
        if self.raw_cfa16.len() != 0 {
            self.raw_cfa16.as_slice()
        } else {
            self.rgb16f.as_slice()
        }
    }

    /// The image matches the given RAW size and holds exactly one complete
    /// payload kind.
    pub open spec fn spec_is_valid_for(&self, width: u32, height: u32) -> bool {
        let pixels = width as int * height as int;
        let rgb_expected = if pixels * 3 > usize::MAX { usize::MAX as int } else { pixels * 3 };
        &&& self.width == width
        &&& self.height == height
        &&& pixels <= usize::MAX
        &&& ((self.raw_cfa16@.len() == pixels && self.rgb16f@.len() == 0) || (self.rgb16f@.len()
            == rgb_expected && self.raw_cfa16@.len() == 0))
    }

    pub fn is_valid_for(&self, width: u32, height: u32) -> (r: bool)
        ensures
            r == self.spec_is_valid_for(width, height),
    {
        if self.width != width || self.height != height {
            return false;
        }
        proof {
            assert(width as int * height as int <= 0xffff_ffff * 0xffff_ffff) by (nonlinear_arith)
                requires
                    width <= 0xffff_ffff,
                    height <= 0xffff_ffff,
            ;
        }
        let pixels = (width as u64) * (height as u64);
        if pixels > usize::MAX as u64 {
            return false;
        }
        let pixels = pixels as usize;
        let rgb_expected = match pixels.checked_mul(3) {
            Some(e) => e,
            None => usize::MAX,
        };
        (self.raw_cfa16.len() == pixels && self.rgb16f.len() == 0) || (self.rgb16f.len() == rgb_expected
            && self.raw_cfa16.len() == 0)
    }
}

/// What `std::path::Path::extension` returns for a path given as text,
/// converted back to text.
pub uninterp spec fn path_extension(path: Seq<char>) -> Option<Seq<char>>;

/// The text held by an optional string.
pub open spec fn text_option_view(o: Option<String>) -> Option<Seq<char>> {
    match o {
        Some(s) => Some(s@),
        None => None,
    }
}

/// Calls `std::path::Path::extension`; the extension of a `&str` path is
/// always valid UTF-8, so `to_str` only converts.
#[verifier::external_body]
pub(crate) fn extension_of(path: &str) -> (r: Option<String>)
    ensures
        text_option_view(r) == path_extension(path@),
{
    match std::path::Path::new(path).extension() {
        Some(extension) => extension.to_str().map(String::from),
        None => None,
    }
}

/// File extensions handled by the RAW loaders, lower case.
pub open spec fn supported_raw_extension_list() -> Seq<Seq<char>> {
    seq![
        "3fr"@, "ari"@, "arw"@, "bay"@, "bmq"@, "cap"@, "cine"@, "cr2"@, "cr3"@, "crw"@, "cs1"@, "dc2"@,
        "dcr"@, "dcs"@, "dng"@, "drf"@, "eip"@, "erf"@, "fff"@, "gpr"@, "iiq"@, "k25"@, "kc2"@, "kdc"@,
        "mdc"@, "mef"@, "mos"@, "mrw"@, "nef"@, "nrw"@, "obm"@, "orf"@, "pef"@, "ptx"@, "pxn"@, "qtk"@,
        "r3d"@, "raf"@, "raw"@, "rdc"@, "rw2"@, "rwl"@, "rwz"@, "sr2"@, "srf"@, "srw"@, "sti"@, "tif"@,
        "tiff"@, "x3f"@,
    ]
}

/// The extensions handled by the RAW loaders, lower case.
pub fn supported_raw_extensions() -> (r: [&'static str; 50])
    ensures
        forall|i: int| 0 <= i < 50 ==> #[trigger] r@[i]@ == supported_raw_extension_list()[i],
{
    let list: [&'static str; 50] = [
        "3fr", "ari", "arw", "bay", "bmq", "cap", "cine", "cr2", "cr3", "crw", "cs1", "dc2", "dcr", "dcs",
        "dng", "drf", "eip", "erf", "fff", "gpr", "iiq", "k25", "kc2", "kdc", "mdc", "mef", "mos", "mrw",
        "nef", "nrw", "obm", "orf", "pef", "ptx", "pxn", "qtk", "r3d", "raf", "raw", "rdc", "rw2", "rwl",
        "rwz", "sr2", "srf", "srw", "sti", "tif", "tiff", "x3f",
    ];
    list
}

/// The extension names a supported RAW format, ignoring ASCII case.
pub open spec fn is_supported_extension(extension: Seq<char>) -> bool {
    exists|i: int|
        0 <= i < supported_raw_extension_list().len() && eq_ignore_ascii_case(
            extension,
            #[trigger] supported_raw_extension_list()[i],
        )
}

/// Whether the file extension of `path` names a supported RAW format,
/// ignoring ASCII case.
pub fn is_supported_raw_path(path: &str) -> (r: bool)
    ensures
        r == (path_extension(path@) matches Some(extension) && is_supported_extension(extension)),
{
    let extension = match extension_of(path) {
        Some(extension) => extension,
        None => return false,
    };
    let extension = chars_of(extension.as_str());
    assert(path_extension(path@) == Some(extension@));
    let list = supported_raw_extensions();
    let mut i: usize = 0;
    while i < 50
        invariant
            0 <= i <= 50,
            path_extension(path@) == Some(extension@),
            forall|k: int| 0 <= k < 50 ==> #[trigger] list@[k]@ == supported_raw_extension_list()[k],
            forall|k: int| 0 <= k < i ==> !eq_ignore_ascii_case(extension@, #[trigger] supported_raw_extension_list()[k]),
        decreases 50 - i,
    {
        let candidate = chars_of(list[i]);
        if chars_eq_ignore_ascii_case(&extension, &candidate) {
            proof {
                assert(supported_raw_extension_list().len() == 50);
                assert(eq_ignore_ascii_case(extension@, supported_raw_extension_list()[i as int]));
                assert(is_supported_extension(extension@));
            }
            return true;
        }
        i += 1;
    }
    assert(supported_raw_extension_list().len() == 50);
    false
}

/// A RAW that arrives already demosaiced: it holds no sensor samples, and
/// its scene-linear raster holds three samples for each of the
/// `width * height` pixels (the count saturating at `usize::MAX`).
pub open spec fn spec_is_pre_demosaiced_raster(raw_pixel_count: usize, raster_len: Option<usize>, width: u32, height: u32) -> bool {
    match raster_len {
        Some(n) => raw_pixel_count == 0 && n == sat_mul_usize(sat_mul_usize(width as usize, height as usize), 3),
        None => false,
    }
}

/// Decides [`spec_is_pre_demosaiced_raster`] from the sensor sample count,
/// the raster's length (if there is a raster) and the image size.
pub fn is_pre_demosaiced_raster(raw_pixel_count: usize, raster_len: Option<usize>, width: u32, height: u32) -> (r: bool)
    ensures
        r == spec_is_pre_demosaiced_raster(raw_pixel_count, raster_len, width, height),
{
    match raster_len {
        Some(n) => raw_pixel_count == 0 && n == saturating_mul_usize(
            saturating_mul_usize(width as usize, height as usize),
            3,
        ),
        None => false,
    }
}

/// The character at `k` of `s` as a number, or 0 past its end.
pub open spec fn code_digit(s: Seq<char>, k: int) -> int {
    if 0 <= k < s.len() {
        s[k] as int
    } else {
        0
    }
}

/// A number for a name of at most four characters that orders names as
/// they are ordered alphabetically (character codes below 256).
pub open spec fn extension_code(s: Seq<char>) -> int {
    code_digit(s, 0) * 0x100_0000 + code_digit(s, 1) * 0x1_0000 + code_digit(s, 2) * 0x100 + code_digit(s, 3)
}

proof fn lemma_codes_increase(list: Seq<Seq<char>>, i: int, j: int)
    requires
        0 <= i < j < list.len(),
        forall|k: int| 0 <= k < list.len() - 1 ==> #[trigger] extension_code(list[k]) < extension_code(list[k + 1]),
    ensures
        extension_code(list[i]) < extension_code(list[j]),
    decreases j - i,
{
    assert(extension_code(list[j - 1]) < extension_code(list[j - 1 + 1]));
    if i < j - 1 {
        lemma_codes_increase(list, i, j - 1);
    }
}

/// The RAW loaders handle fifty file extensions, each named once, in
/// alphabetical order.
pub proof fn lemma_supported_extensions_are_distinct()
    ensures
        supported_raw_extension_list().len() == 50,
        forall|i: int, j: int|
            0 <= i < j < 50 ==> #[trigger] supported_raw_extension_list()[i] != #[trigger] supported_raw_extension_list()[j],
{
    let list = supported_raw_extension_list();
    reveal_strlit("3fr");
    reveal_strlit("ari");
    reveal_strlit("arw");
    reveal_strlit("bay");
    reveal_strlit("bmq");
    reveal_strlit("cap");
    reveal_strlit("cine");
    reveal_strlit("cr2");
    reveal_strlit("cr3");
    reveal_strlit("crw");
    reveal_strlit("cs1");
    reveal_strlit("dc2");
    reveal_strlit("dcr");
    reveal_strlit("dcs");
    reveal_strlit("dng");
    reveal_strlit("drf");
    reveal_strlit("eip");
    reveal_strlit("erf");
    reveal_strlit("fff");
    reveal_strlit("gpr");
    reveal_strlit("iiq");
    reveal_strlit("k25");
    reveal_strlit("kc2");
    reveal_strlit("kdc");
    reveal_strlit("mdc");
    reveal_strlit("mef");
    reveal_strlit("mos");
    reveal_strlit("mrw");
    reveal_strlit("nef");
    reveal_strlit("nrw");
    reveal_strlit("obm");
    reveal_strlit("orf");
    reveal_strlit("pef");
    reveal_strlit("ptx");
    reveal_strlit("pxn");
    reveal_strlit("qtk");
    reveal_strlit("r3d");
    reveal_strlit("raf");
    reveal_strlit("raw");
    reveal_strlit("rdc");
    reveal_strlit("rw2");
    reveal_strlit("rwl");
    reveal_strlit("rwz");
    reveal_strlit("sr2");
    reveal_strlit("srf");
    reveal_strlit("srw");
    reveal_strlit("sti");
    reveal_strlit("tif");
    reveal_strlit("tiff");
    reveal_strlit("x3f");
    assert(extension_code(list[0]) < extension_code(list[1]));
    assert(extension_code(list[1]) < extension_code(list[2]));
    assert(extension_code(list[2]) < extension_code(list[3]));
    assert(extension_code(list[3]) < extension_code(list[4]));
    assert(extension_code(list[4]) < extension_code(list[5]));
    assert(extension_code(list[5]) < extension_code(list[6]));
    assert(extension_code(list[6]) < extension_code(list[7]));
    assert(extension_code(list[7]) < extension_code(list[8]));
    assert(extension_code(list[8]) < extension_code(list[9]));
    assert(extension_code(list[9]) < extension_code(list[10]));
    assert(extension_code(list[10]) < extension_code(list[11]));
    assert(extension_code(list[11]) < extension_code(list[12]));
    assert(extension_code(list[12]) < extension_code(list[13]));
    assert(extension_code(list[13]) < extension_code(list[14]));
    assert(extension_code(list[14]) < extension_code(list[15]));
    assert(extension_code(list[15]) < extension_code(list[16]));
    assert(extension_code(list[16]) < extension_code(list[17]));
    assert(extension_code(list[17]) < extension_code(list[18]));
    assert(extension_code(list[18]) < extension_code(list[19]));
    assert(extension_code(list[19]) < extension_code(list[20]));
    assert(extension_code(list[20]) < extension_code(list[21]));
    assert(extension_code(list[21]) < extension_code(list[22]));
    assert(extension_code(list[22]) < extension_code(list[23]));
    assert(extension_code(list[23]) < extension_code(list[24]));
    assert(extension_code(list[24]) < extension_code(list[25]));
    assert(extension_code(list[25]) < extension_code(list[26]));
    assert(extension_code(list[26]) < extension_code(list[27]));
    assert(extension_code(list[27]) < extension_code(list[28]));
    assert(extension_code(list[28]) < extension_code(list[29]));
    assert(extension_code(list[29]) < extension_code(list[30]));
    assert(extension_code(list[30]) < extension_code(list[31]));
    assert(extension_code(list[31]) < extension_code(list[32]));
    assert(extension_code(list[32]) < extension_code(list[33]));
    assert(extension_code(list[33]) < extension_code(list[34]));
    assert(extension_code(list[34]) < extension_code(list[35]));
    assert(extension_code(list[35]) < extension_code(list[36]));
    assert(extension_code(list[36]) < extension_code(list[37]));
    assert(extension_code(list[37]) < extension_code(list[38]));
    assert(extension_code(list[38]) < extension_code(list[39]));
    assert(extension_code(list[39]) < extension_code(list[40]));
    assert(extension_code(list[40]) < extension_code(list[41]));
    assert(extension_code(list[41]) < extension_code(list[42]));
    assert(extension_code(list[42]) < extension_code(list[43]));
    assert(extension_code(list[43]) < extension_code(list[44]));
    assert(extension_code(list[44]) < extension_code(list[45]));
    assert(extension_code(list[45]) < extension_code(list[46]));
    assert(extension_code(list[46]) < extension_code(list[47]));
    assert(extension_code(list[47]) < extension_code(list[48]));
    assert(extension_code(list[48]) < extension_code(list[49]));
    assert forall|i: int, j: int| 0 <= i < j < 50 implies #[trigger] list[i] != #[trigger] list[j] by {
        lemma_codes_increase(list, i, j);
    }
}

/// Whether an extension is supported does not depend on the case of its
/// ASCII letters: "CR3", "Cr3" and "cr3" are all supported or none is.
pub proof fn lemma_extension_support_ignores_ascii_case(a: Seq<char>, b: Seq<char>)
    requires
        eq_ignore_ascii_case(a, b),
    ensures
        is_supported_extension(a) == is_supported_extension(b),
{
    if is_supported_extension(a) {
        let i = choose|i: int|
            0 <= i < supported_raw_extension_list().len() && eq_ignore_ascii_case(
                a,
                #[trigger] supported_raw_extension_list()[i],
            );
        let l = supported_raw_extension_list()[i];
        assert forall|k: int| 0 <= k < b.len() implies #[trigger] ascii_lower(b[k]) == ascii_lower(l[k]) by {
            assert(ascii_lower(a[k]) == ascii_lower(b[k]));
            assert(ascii_lower(a[k]) == ascii_lower(l[k]));
        }
        assert(eq_ignore_ascii_case(b, l));
    }
    if is_supported_extension(b) {
        let i = choose|i: int|
            0 <= i < supported_raw_extension_list().len() && eq_ignore_ascii_case(
                b,
                #[trigger] supported_raw_extension_list()[i],
            );
        let l = supported_raw_extension_list()[i];
        assert forall|k: int| 0 <= k < a.len() implies #[trigger] ascii_lower(a[k]) == ascii_lower(l[k]) by {
            assert(ascii_lower(a[k]) == ascii_lower(b[k]));
            assert(ascii_lower(b[k]) == ascii_lower(l[k]));
        }
        assert(eq_ignore_ascii_case(a, l));
    }
}

/// The RAW formats of the major camera makers are supported in any ASCII
/// case: Hasselblad 3FR, Sony ARW, Canon CR2, CR3 and CRW, Adobe DNG,
/// Phase One IIQ, Nikon NEF and NRW, Olympus ORF, Pentax PEF, Fujifilm
/// RAF, Panasonic RW2, Samsung SRW and Sigma X3F.
pub proof fn lemma_major_raw_formats_are_supported(extension: Seq<char>)
    requires
        eq_ignore_ascii_case(extension, "3fr"@) || eq_ignore_ascii_case(extension, "arw"@) || eq_ignore_ascii_case(extension, "cr2"@) || eq_ignore_ascii_case(extension, "cr3"@) || eq_ignore_ascii_case(extension, "crw"@) || eq_ignore_ascii_case(extension, "dng"@) || eq_ignore_ascii_case(extension, "iiq"@) || eq_ignore_ascii_case(extension, "nef"@) || eq_ignore_ascii_case(extension, "nrw"@) || eq_ignore_ascii_case(extension, "orf"@) || eq_ignore_ascii_case(extension, "pef"@) || eq_ignore_ascii_case(extension, "raf"@) || eq_ignore_ascii_case(extension, "rw2"@) || eq_ignore_ascii_case(extension, "srw"@) || eq_ignore_ascii_case(extension, "x3f"@),
    ensures
        is_supported_extension(extension),
{
    if eq_ignore_ascii_case(extension, "3fr"@) {
        assert(supported_raw_extension_list()[0] == "3fr"@);
    }
    if eq_ignore_ascii_case(extension, "arw"@) {
        assert(supported_raw_extension_list()[2] == "arw"@);
    }
    if eq_ignore_ascii_case(extension, "cr2"@) {
        assert(supported_raw_extension_list()[7] == "cr2"@);
    }
    if eq_ignore_ascii_case(extension, "cr3"@) {
        assert(supported_raw_extension_list()[8] == "cr3"@);
    }
    if eq_ignore_ascii_case(extension, "crw"@) {
        assert(supported_raw_extension_list()[9] == "crw"@);
    }
    if eq_ignore_ascii_case(extension, "dng"@) {
        assert(supported_raw_extension_list()[14] == "dng"@);
    }
    if eq_ignore_ascii_case(extension, "iiq"@) {
        assert(supported_raw_extension_list()[20] == "iiq"@);
    }
    if eq_ignore_ascii_case(extension, "nef"@) {
        assert(supported_raw_extension_list()[28] == "nef"@);
    }
    if eq_ignore_ascii_case(extension, "nrw"@) {
        assert(supported_raw_extension_list()[29] == "nrw"@);
    }
    if eq_ignore_ascii_case(extension, "orf"@) {
        assert(supported_raw_extension_list()[31] == "orf"@);
    }
    if eq_ignore_ascii_case(extension, "pef"@) {
        assert(supported_raw_extension_list()[32] == "pef"@);
    }
    if eq_ignore_ascii_case(extension, "raf"@) {
        assert(supported_raw_extension_list()[37] == "raf"@);
    }
    if eq_ignore_ascii_case(extension, "rw2"@) {
        assert(supported_raw_extension_list()[40] == "rw2"@);
    }
    if eq_ignore_ascii_case(extension, "srw"@) {
        assert(supported_raw_extension_list()[45] == "srw"@);
    }
    if eq_ignore_ascii_case(extension, "x3f"@) {
        assert(supported_raw_extension_list()[49] == "x3f"@);
    }
}

} // verus!
