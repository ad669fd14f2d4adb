//! TIFF container inspection over the bytes of a file: the header, the IFD
//! graph (chained IFDs and SubIFDs), integer tag values, the sensor/raster
//! decision and the embedded ICC profile.
use crate::raw_loader::{extension_of, path_extension};
use crate::text::{chars_eq_ignore_ascii_case, chars_of, eq_ignore_ascii_case};
use vstd::prelude::*;

verus! {

/// IFDs inspected before a file is refused.
pub const MAX_TIFF_IFDS: u64 = 32;
/// Entries allowed in one IFD.
pub const MAX_TIFF_IFD_ENTRIES: u64 = 4096;
/// Pending SubIFD offsets kept at once.
pub const MAX_TIFF_SUBIFDS: u64 = 64;
/// Smallest embedded ICC profile.
pub const MIN_TIFF_ICC_BYTES: u64 = 132;
/// Largest embedded ICC profile.
pub const MAX_TIFF_ICC_BYTES: u64 = 16 * 1024 * 1024;

pub const TAG_SUBIFDS: u16 = 330;
pub const TAG_PHOTOMETRIC: u16 = 262;
pub const TAG_ICC_PROFILE: u16 = 34675;
pub const TAG_CFA_REPEAT_PATTERN_DIM: u16 = 33421;
pub const TAG_CFA_PATTERN: u16 = 33422;
pub const PHOTOMETRIC_CFA: u64 = 32803;
pub const PHOTOMETRIC_LINEAR_RAW: u64 = 34892;

/// How a TIFF container is loaded: as sensor data or as a rendered raster.
#[derive(Clone, Copy, Debug, PartialEq, Eq, Structural)]
pub enum TiffContainerKind {
    Sensor,
    Raster,
}

#[derive(Clone, Copy, Debug, PartialEq, Eq, Structural)]
pub enum ByteOrder {
    Little,
    Big,
}

/// Why a TIFF container was refused.
#[derive(Clone, Copy, Debug, PartialEq, Eq, Structural)]
pub enum TiffError {
    /// The file ends inside the header.
    TruncatedHeader,
    /// The byte-order mark is neither `II` nor `MM`.
    NotTiff,
    /// The magic number is neither 42 nor 43.
    InvalidMagic,
    /// A BigTIFF header with an offset size other than 8.
    UnsupportedBigTiffHeader,
    /// More than [`MAX_TIFF_IFDS`] IFDs.
    TooManyIfds,
    /// An IFD offset points past the end of the file.
    IfdOffsetOutsideFile,
    /// The file ends inside an IFD entry count.
    TruncatedIfd,
    /// An IFD declares more than [`MAX_TIFF_IFD_ENTRIES`] entries.
    TooManyIfdEntries,
    /// An IFD position overflows.
    IfdSizeOverflow,
    /// An IFD's entries or next-IFD link extend past the file.
    IfdOutsideFile,
    /// A tag's data size overflows.
    TagSizeOverflow,
    /// A tag's data extends past the file.
    TagDataOutsideFile,
    /// The ICC profile tag is neither BYTE nor UNDEFINED.
    IccFieldType(u16),
    /// The ICC profile tag size is outside the accepted range.
    IccInvalidSize,
    /// The ICC profile extends past the file.
    IccOutsideFile,
    /// The ICC profile lacks its signature.
    IccInvalidHeader,
    /// The ICC profile declares a size outside the tag.
    IccInvalidDeclaredSize,
}

impl TiffError {
    pub fn message(self) -> (r: &'static str)
        ensures
            r@ == (match self {
            TiffError::TruncatedHeader => "TIFF header is truncated"@,
            TiffError::NotTiff => "not a TIFF container"@,
            TiffError::InvalidMagic => "invalid TIFF magic"@,
            TiffError::UnsupportedBigTiffHeader => "unsupported BigTIFF header"@,
            TiffError::TooManyIfds => "TIFF contains too many IFDs"@,
            TiffError::IfdOffsetOutsideFile => "TIFF IFD offset is outside the file"@,
            TiffError::TruncatedIfd => "TIFF IFD is truncated"@,
            TiffError::TooManyIfdEntries => "TIFF IFD contains too many entries"@,
            TiffError::IfdSizeOverflow => "TIFF IFD size overflow"@,
            TiffError::IfdOutsideFile => "TIFF IFD extends outside the file"@,
            TiffError::TagSizeOverflow => "TIFF tag size overflow"@,
            TiffError::TagDataOutsideFile => "TIFF tag data extends outside the file"@,
            TiffError::IccFieldType(_) => "TIFF ICC profile tag has an unsupported field type"@,
            TiffError::IccInvalidSize => "TIFF ICC profile has an invalid size"@,
            TiffError::IccOutsideFile => "TIFF ICC profile extends outside the file"@,
            TiffError::IccInvalidHeader => "TIFF ICC profile has an invalid header"@,
            TiffError::IccInvalidDeclaredSize => "TIFF ICC profile declares an invalid size"@,
            }),
    {
        match self {
            TiffError::TruncatedHeader => "TIFF header is truncated",
            TiffError::NotTiff => "not a TIFF container",
            TiffError::InvalidMagic => "invalid TIFF magic",
            TiffError::UnsupportedBigTiffHeader => "unsupported BigTIFF header",
            TiffError::TooManyIfds => "TIFF contains too many IFDs",
            TiffError::IfdOffsetOutsideFile => "TIFF IFD offset is outside the file",
            TiffError::TruncatedIfd => "TIFF IFD is truncated",
            TiffError::TooManyIfdEntries => "TIFF IFD contains too many entries",
            TiffError::IfdSizeOverflow => "TIFF IFD size overflow",
            TiffError::IfdOutsideFile => "TIFF IFD extends outside the file",
            TiffError::TagSizeOverflow => "TIFF tag size overflow",
            TiffError::TagDataOutsideFile => "TIFF tag data extends outside the file",
            TiffError::IccFieldType(_) => "TIFF ICC profile tag has an unsupported field type",
            TiffError::IccInvalidSize => "TIFF ICC profile has an invalid size",
            TiffError::IccOutsideFile => "TIFF ICC profile extends outside the file",
            TiffError::IccInvalidHeader => "TIFF ICC profile has an invalid header",
            TiffError::IccInvalidDeclaredSize => "TIFF ICC profile declares an invalid size",
        }
    }
}

pub open spec fn pow256(n: nat) -> nat
    decreases n,
{
    if n == 0 { 1 } else { 256 * pow256((n - 1) as nat) }
}

/// Unsigned little-endian integer in `bytes[pos .. pos + n]`.
pub open spec fn uint_le(bytes: Seq<u8>, pos: int, n: nat) -> nat
    decreases n,
{
    if n == 0 { 0 } else { bytes[pos] as nat + 256 * uint_le(bytes, pos + 1, (n - 1) as nat) }
}

/// Unsigned big-endian integer in `bytes[pos .. pos + n]`.
pub open spec fn uint_be(bytes: Seq<u8>, pos: int, n: nat) -> nat
    decreases n,
{
    if n == 0 { 0 } else { 256 * uint_be(bytes, pos, (n - 1) as nat) + bytes[pos + n - 1] as nat }
}

pub open spec fn uint_at(bytes: Seq<u8>, pos: int, n: nat, order: ByteOrder) -> nat {
    match order {
        ByteOrder::Little => uint_le(bytes, pos, n),
        ByteOrder::Big => uint_be(bytes, pos, n),
    }
}

proof fn lemma_uint_le_bound(bytes: Seq<u8>, pos: int, n: nat)
    ensures
        uint_le(bytes, pos, n) < pow256(n),
    decreases n,
{
    if n > 0 {
        lemma_uint_le_bound(bytes, pos + 1, (n - 1) as nat);
    }
}

proof fn lemma_uint_be_bound(bytes: Seq<u8>, pos: int, n: nat)
    ensures
        uint_be(bytes, pos, n) < pow256(n),
    decreases n,
{
    if n > 0 {
        lemma_uint_be_bound(bytes, pos, (n - 1) as nat);
    }
}

proof fn lemma_pow256_le(n: nat)
    requires
        n <= 8,
    ensures
        pow256(n) <= 0x1_0000_0000_0000_0000,
        n <= 4 ==> pow256(n) <= 0x1_0000_0000,
        n <= 2 ==> pow256(n) <= 0x1_0000,
        n <= 1 ==> pow256(n) <= 0x100,
{
    reveal_with_fuel(pow256, 9);
}

/// Reads an `n`-byte unsigned integer; the bytes must exist.
fn read_uint(bytes: &[u8], pos: usize, n: usize, order: ByteOrder) -> (r: u64)
    requires
        1 <= n <= 8,
        pos + n <= bytes@.len(),
    ensures
        r == uint_at(bytes@, pos as int, n as nat, order),
        r < pow256(n as nat),
{
    proof {
        lemma_pow256_le(n as nat);
    }
    match order {
        ByteOrder::Little => {
            let mut value: u64 = 0;
            let mut k: usize = n;
            while k > 0
                invariant
                    1 <= n <= 8,
                    pos + n <= bytes@.len(),
                    pos + n <= bytes.len(),
                    0 <= k <= n,
                    value == uint_le(bytes@, pos + k, (n - k) as nat),
                    pow256(n as nat) <= 0x1_0000_0000_0000_0000,
                decreases k,
            {
                proof {
                    lemma_uint_le_bound(bytes@, pos + k - 1, (n - k + 1) as nat);
                    lemma_pow256_monotone((n - k + 1) as nat, n as nat);
                }
                value = value * 256 + bytes[pos + k - 1] as u64;
                k -= 1;
                proof {
                    assert(uint_le(bytes@, pos + k, (n - k) as nat) == bytes@[pos + k] as nat + 256 * uint_le(
                        bytes@,
                        pos + k + 1,
                        (n - k - 1) as nat,
                    ));
                }
            }
            proof {
                lemma_uint_le_bound(bytes@, pos as int, n as nat);
            }
            value
        },
        ByteOrder::Big => {
            let mut value: u64 = 0;
            let mut k: usize = 0;
            while k < n
                invariant
                    1 <= n <= 8,
                    pos + n <= bytes@.len(),
                    pos + n <= bytes.len(),
                    0 <= k <= n,
                    value == uint_be(bytes@, pos as int, k as nat),
                    pow256(n as nat) <= 0x1_0000_0000_0000_0000,
                decreases n - k,
            {
                proof {
                    lemma_uint_be_bound(bytes@, pos as int, (k + 1) as nat);
                    lemma_pow256_monotone((k + 1) as nat, n as nat);
                }
                value = value * 256 + bytes[pos + k] as u64;
                k += 1;
            }
            proof {
                lemma_uint_be_bound(bytes@, pos as int, n as nat);
            }
            value
        },
    }
}

proof fn lemma_pow256_monotone(a: nat, b: nat)
    requires
        a <= b,
    ensures
        pow256(a) <= pow256(b),
    decreases b,
{
    if a < b {
        lemma_pow256_monotone(a, (b - 1) as nat);
    }
}

/// The facts a TIFF header gives.
#[derive(Clone, Copy, Debug, PartialEq, Eq, Structural)]
pub struct TiffHeader {
    pub order: ByteOrder,
    pub big_tiff: bool,
    pub first_ifd: u64,
    pub file_len: u64,
}

pub open spec fn spec_parse_header(bytes: Seq<u8>) -> Result<TiffHeader, TiffError> {
    if bytes.len() < 8 {
        Err(TiffError::TruncatedHeader)
    } else {
        let order_opt = if bytes[0] == 0x49 && bytes[1] == 0x49 {
            Some(ByteOrder::Little)
        } else if bytes[0] == 0x4d && bytes[1] == 0x4d {
            Some(ByteOrder::Big)
        } else {
            None
        };
        match order_opt {
            None => Err(TiffError::NotTiff),
            Some(order) => {
                let magic = uint_at(bytes, 2, 2, order);
                if magic == 42 {
                    Ok(
                        TiffHeader {
                            order,
                            big_tiff: false,
                            first_ifd: uint_at(bytes, 4, 4, order) as u64,
                            file_len: bytes.len() as u64,
                        },
                    )
                } else if magic == 43 {
                    if bytes.len() < 16 {
                        Err(TiffError::TruncatedHeader)
                    } else if uint_at(bytes, 4, 2, order) != 8 || uint_at(bytes, 6, 2, order) != 0 {
                        Err(TiffError::UnsupportedBigTiffHeader)
                    } else {
                        Ok(
                            TiffHeader {
                                order,
                                big_tiff: true,
                                first_ifd: uint_at(bytes, 8, 8, order) as u64,
                                file_len: bytes.len() as u64,
                            },
                        )
                    }
                } else {
                    Err(TiffError::InvalidMagic)
                }
            },
        }
    }
}

/// Reads the byte order, the classic or BigTIFF magic and the first IFD
/// offset.
pub fn parse_header(bytes: &[u8]) -> (r: Result<TiffHeader, TiffError>)
    ensures
        r == spec_parse_header(bytes@),
{
    if bytes.len() < 8 {
        return Err(TiffError::TruncatedHeader);
    }
    let order = if bytes[0] == 0x49 && bytes[1] == 0x49 {
        ByteOrder::Little
    } else if bytes[0] == 0x4d && bytes[1] == 0x4d {
        ByteOrder::Big
    } else {
        return Err(TiffError::NotTiff);
    };
    let magic = read_uint(bytes, 2, 2, order);
    if magic == 42 {
        let first_ifd = read_uint(bytes, 4, 4, order);
        return Ok(TiffHeader { order, big_tiff: false, first_ifd, file_len: bytes.len() as u64 });
    }
    if magic == 43 {
        if bytes.len() < 16 {
            return Err(TiffError::TruncatedHeader);
        }
        if read_uint(bytes, 4, 2, order) != 8 || read_uint(bytes, 6, 2, order) != 0 {
            return Err(TiffError::UnsupportedBigTiffHeader);
        }
        let first_ifd = read_uint(bytes, 8, 8, order);
        return Ok(TiffHeader { order, big_tiff: true, first_ifd, file_len: bytes.len() as u64 });
    }
    Err(TiffError::InvalidMagic)
}

/// Bytes per value of a TIFF field type.
pub open spec fn spec_field_width(field_type: u16) -> Option<u64> {
    if field_type == 1 || field_type == 2 || field_type == 6 || field_type == 7 {
        Some(1)
    } else if field_type == 3 || field_type == 8 {
        Some(2)
    } else if field_type == 4 || field_type == 9 || field_type == 11 || field_type == 13 {
        Some(4)
    } else if field_type == 5 || field_type == 10 || field_type == 12 || field_type == 16 || field_type == 17
        || field_type == 18 {
        Some(8)
    } else {
        None
    }
}

pub fn field_width(field_type: u16) -> (r: Option<u64>)
    ensures
        r == spec_field_width(field_type),
{
    match field_type {
        1 | 2 | 6 | 7 => Some(1),
        3 | 8 => Some(2),
        4 | 9 | 11 | 13 => Some(4),
        5 | 10 | 12 | 16 | 17 | 18 => Some(8),
        _ => None,
    }
}

/// One IFD entry: its type, count, where its inline value field lies and
/// the value or offset stored there.
#[derive(Clone, Copy, Debug, PartialEq, Eq, Structural)]
pub struct TiffField {
    pub order: ByteOrder,
    pub big_tiff: bool,
    pub field_type: u16,
    pub count: u64,
    pub value_field_offset: u64,
    pub value_or_offset: u64,
    pub file_len: u64,
}

impl TiffField {
    pub open spec fn inline_bytes(self) -> u64 {
        if self.big_tiff { 8 } else { 4 }
    }

    /// Data of at most `inline_bytes` lives in the entry itself; larger data
    /// lives at the stored offset.
    pub open spec fn spec_data_offset(self, total_bytes: u64) -> u64 {
        if total_bytes <= self.inline_bytes() { self.value_field_offset } else { self.value_or_offset }
    }

    pub fn data_offset(self, total_bytes: u64) -> (r: u64)
        ensures
            r == self.spec_data_offset(total_bytes),
    {
        let inline_bytes: u64 = if self.big_tiff { 8 } else { 4 };
        if total_bytes <= inline_bytes {
            self.value_field_offset
        } else {
            self.value_or_offset
        }
    }
}

/// Field types whose values are read as unsigned integers.
pub open spec fn is_integer_field_type(field_type: u16) -> bool {
    field_type == 1 || field_type == 3 || field_type == 4 || field_type == 13 || field_type == 16
        || field_type == 18
}

/// The first `min(count, limit)` integer values of a field.
pub open spec fn spec_integer_values(bytes: Seq<u8>, field: TiffField, limit: int) -> Result<Seq<u64>, TiffError> {
    match spec_field_width(field.field_type) {
        None => Ok(Seq::empty()),
        Some(width) => if !is_integer_field_type(field.field_type) || field.count == 0 {
            Ok(Seq::empty())
        } else if width * field.count > u64::MAX {
            Err(TiffError::TagSizeOverflow)
        } else {
            let total = (width * field.count) as u64;
            let data_offset = field.spec_data_offset(total);
            if data_offset + total > u64::MAX || data_offset + total > field.file_len {
                Err(TiffError::TagDataOutsideFile)
            } else {
                let value_count = if field.count < limit { field.count as int } else { limit };
                Ok(
                    Seq::new(
                        value_count as nat,
                        |i: int| uint_at(bytes, data_offset + i * width, width as nat, field.order) as u64,
                    ),
                )
            }
        },
    }
}

fn integer_values(bytes: &[u8], field: TiffField, limit: usize) -> (r: Result<Vec<u64>, TiffError>)
    requires
        field.file_len == bytes@.len(),
    ensures
        (match r {
            Ok(v) => Ok(v@),
            Err(e) => Err(e),
        }) == spec_integer_values(bytes@, field, limit as int),
{
    let width = match field_width(field.field_type) {
        Some(width) => width,
        None => return Ok(Vec::new()),
    };
    let t = field.field_type;
    if !(t == 1 || t == 3 || t == 4 || t == 13 || t == 16 || t == 18) || field.count == 0 {
        return Ok(Vec::new());
    }
    let total = match width.checked_mul(field.count) {
        Some(total) => total,
        None => return Err(TiffError::TagSizeOverflow),
    };
    let data_offset = field.data_offset(total);
    match data_offset.checked_add(total) {
        Some(end) => {
            if end > field.file_len {
                return Err(TiffError::TagDataOutsideFile);
            }
        },
        None => return Err(TiffError::TagDataOutsideFile),
    }
    let value_count: u64 = if field.count < limit as u64 { field.count } else { limit as u64 };
    let mut values: Vec<u64> = Vec::new();
    let mut i: u64 = 0;
    while i < value_count
        invariant
            field.file_len == bytes@.len(),
            1 <= width <= 8,
            width == spec_field_width(field.field_type).unwrap(),
            total == width * field.count,
            data_offset + total <= bytes.len(),
            value_count <= field.count,
            0 <= i <= value_count,
            values@.len() == i,
            forall|k: int|
                0 <= k < i ==> #[trigger] values@[k] == uint_at(
                    bytes@,
                    data_offset + k * width,
                    width as nat,
                    field.order,
                ) as u64,
        decreases value_count - i,
    {
        proof {
            assert(i * width + width <= total) by (nonlinear_arith)
                requires
                    i < field.count,
                    width >= 0,
                    total == width * field.count,
            ;
        }
        let value = read_uint(bytes, (data_offset + i * width) as usize, width as usize, field.order);
        values.push(value);
        i += 1;
    }
    proof {
        let expected = spec_integer_values(bytes@, field, limit as int);
        assert(expected matches Ok(s) && s =~= values@);
    }
    Ok(values)
}


/// Bytes of one IFD entry.
pub open spec fn entry_size(big_tiff: bool) -> u64 {
    if big_tiff { 20 } else { 12 }
}

/// Bytes of an IFD's entry count.
pub open spec fn entry_count_size(big_tiff: bool) -> u64 {
    if big_tiff { 8 } else { 2 }
}

/// Bytes of an entry's count, of its value field and of a next-IFD link.
pub open spec fn link_size(big_tiff: bool) -> u64 {
    if big_tiff { 8 } else { 4 }
}

/// The tag of the IFD entry at `at`.
pub open spec fn spec_entry_tag(bytes: Seq<u8>, header: TiffHeader, at: int) -> u16 {
    uint_at(bytes, at, 2, header.order) as u16
}

/// The field of the IFD entry at `at`.
pub open spec fn spec_entry_field(bytes: Seq<u8>, header: TiffHeader, at: int) -> TiffField {
    let w = link_size(header.big_tiff) as nat;
    TiffField {
        order: header.order,
        big_tiff: header.big_tiff,
        field_type: uint_at(bytes, at + 2, 2, header.order) as u16,
        count: uint_at(bytes, at + 4, w, header.order) as u64,
        value_field_offset: (at + 4 + w) as u64,
        value_or_offset: uint_at(bytes, at + 4 + w, w, header.order) as u64,
        file_len: header.file_len,
    }
}

fn read_entry(bytes: &[u8], header: TiffHeader, at: u64) -> (r: (u16, TiffField))
    requires
        header.file_len == bytes@.len(),
        at + entry_size(header.big_tiff) <= bytes@.len(),
    ensures
        r.0 == spec_entry_tag(bytes@, header, at as int),
        r.1 == spec_entry_field(bytes@, header, at as int),
{
    let _len = bytes.len();
    let pos = at as usize;
    let w: usize = if header.big_tiff { 8 } else { 4 };
    let tag = read_uint(bytes, pos, 2, header.order) as u16;
    let field_type = read_uint(bytes, pos + 2, 2, header.order) as u16;
    let count = read_uint(bytes, pos + 4, w, header.order);
    let value_or_offset = read_uint(bytes, pos + 4 + w, w, header.order);
    let field = TiffField {
        order: header.order,
        big_tiff: header.big_tiff,
        field_type,
        count,
        value_field_offset: at + 4 + w as u64,
        value_or_offset,
        file_len: header.file_len,
    };
    (tag, field)
}

/// The nonzero offsets of `s`, in order.
pub open spec fn nonzero_offsets(s: Seq<u64>) -> Seq<u64>
    decreases s.len(),
{
    if s.len() == 0 {
        s
    } else {
        let rest = nonzero_offsets(s.drop_last());
        if s.last() != 0 { rest.push(s.last()) } else { rest }
    }
}

fn append_nonzero(pending: &mut Vec<u64>, offsets: &Vec<u64>)
    ensures
        final(pending)@ == old(pending)@ + nonzero_offsets(offsets@),
{
    let ghost start = pending@;
    let mut j: usize = 0;
    while j < offsets.len()
        invariant
            0 <= j <= offsets@.len(),
            pending@ == start + nonzero_offsets(offsets@.take(j as int)),
        decreases offsets@.len() - j,
    {
        proof {
            assert(offsets@.take(j + 1).drop_last() =~= offsets@.take(j as int));
        }
        if offsets[j] != 0 {
            pending.push(offsets[j]);
        }
        j += 1;
        proof {
            assert(pending@ =~= start + nonzero_offsets(offsets@.take(j as int)));
        }
    }
    proof {
        assert(offsets@.take(offsets@.len() as int) =~= offsets@);
    }
}

/// What a walk over the IFDs looks for.
#[derive(Clone, Copy, Debug, PartialEq, Eq, Structural)]
pub enum TiffQuery {
    /// A tag that marks sensor data: the CFA pattern tags, or a CFA or
    /// LinearRaw photometric interpretation.
    SensorMarker,
    /// The embedded ICC profile.
    IccProfile,
}

/// The photometric interpretations of sensor data.
pub open spec fn is_sensor_photometric(value: u64) -> bool {
    value == PHOTOMETRIC_CFA || value == PHOTOMETRIC_LINEAR_RAW
}

/// ICC profile bytes carry the `acsp` signature at offset 36.
pub open spec fn has_icc_signature(profile: Seq<u8>) -> bool {
    &&& profile.len() >= 40
    &&& profile[36] == 0x61
    &&& profile[37] == 0x63
    &&& profile[38] == 0x73
    &&& profile[39] == 0x70
}

/// A profile cut to the size that its header declares.
pub open spec fn spec_normalize_icc(profile: Seq<u8>) -> Result<Seq<u8>, TiffError> {
    if profile.len() < MIN_TIFF_ICC_BYTES || !has_icc_signature(profile) {
        Err(TiffError::IccInvalidHeader)
    } else {
        let declared = uint_be(profile, 0, 4);
        if declared < MIN_TIFF_ICC_BYTES || declared > profile.len() {
            Err(TiffError::IccInvalidDeclaredSize)
        } else {
            Ok(profile.take(declared as int))
        }
    }
}

/// The bytes held by a result.
pub open spec fn bytes_result_view(r: Result<Vec<u8>, TiffError>) -> Result<Seq<u8>, TiffError> {
    match r {
        Ok(v) => Ok(v@),
        Err(e) => Err(e),
    }
}

/// Checks the signature of an ICC profile and cuts it to the size its
/// header declares.
pub fn normalize_icc_profile(bytes: Vec<u8>) -> (r: Result<Vec<u8>, TiffError>)
    ensures
        bytes_result_view(r) == spec_normalize_icc(bytes@),
{
    let mut bytes = bytes;
    if bytes.len() < 132 || !(bytes[36] == 0x61 && bytes[37] == 0x63 && bytes[38] == 0x73 && bytes[39]
        == 0x70) {
        return Err(TiffError::IccInvalidHeader);
    }
    let declared = read_uint(bytes.as_slice(), 0, 4, ByteOrder::Big);
    if declared < MIN_TIFF_ICC_BYTES || declared > bytes.len() as u64 {
        return Err(TiffError::IccInvalidDeclaredSize);
    }
    bytes.truncate(declared as usize);
    Ok(bytes)
}

/// The profile that an ICC profile field points at.
pub open spec fn spec_icc_payload(bytes: Seq<u8>, field: TiffField) -> Result<Seq<u8>, TiffError> {
    if !(field.field_type == 1 || field.field_type == 7) {
        Err(TiffError::IccFieldType(field.field_type))
    } else if field.count < MIN_TIFF_ICC_BYTES || field.count > MAX_TIFF_ICC_BYTES {
        Err(TiffError::IccInvalidSize)
    } else {
        let start = field.spec_data_offset(field.count);
        if start + field.count > field.file_len {
            Err(TiffError::IccOutsideFile)
        } else {
            spec_normalize_icc(bytes.subrange(start as int, start + field.count))
        }
    }
}

fn read_icc_payload(bytes: &[u8], field: TiffField) -> (r: Result<Vec<u8>, TiffError>)
    requires
        field.file_len == bytes@.len(),
    ensures
        bytes_result_view(r) == spec_icc_payload(bytes@, field),
{
    if !(field.field_type == 1 || field.field_type == 7) {
        return Err(TiffError::IccFieldType(field.field_type));
    }
    if field.count < MIN_TIFF_ICC_BYTES || field.count > MAX_TIFF_ICC_BYTES {
        return Err(TiffError::IccInvalidSize);
    }
    let start = field.data_offset(field.count);
    match start.checked_add(field.count) {
        Some(end) => {
            if end > field.file_len {
                return Err(TiffError::IccOutsideFile);
            }
        },
        None => return Err(TiffError::IccOutsideFile),
    }
    let len = bytes.len();
    let start = start as usize;
    let count = field.count as usize;
    let mut payload: Vec<u8> = Vec::new();
    let mut i: usize = 0;
    while i < count
        invariant
            len == bytes@.len(),
            start + count <= len,
            0 <= i <= count,
            payload@ == bytes@.subrange(start as int, start + i),
        decreases count - i,
    {
        payload.push(bytes[start + i]);
        i += 1;
        proof {
            assert(payload@ =~= bytes@.subrange(start as int, start + i));
        }
    }
    normalize_icc_profile(payload)
}

/// What one field contributes to a walk: an error, the payload of an
/// accepted field (the profile for [`TiffQuery::IccProfile`], nothing for
/// [`TiffQuery::SensorMarker`]), or `None` to go on.
pub open spec fn spec_visit(bytes: Seq<u8>, query: TiffQuery, tag: u16, field: TiffField) -> Result<
    Option<Seq<u8>>,
    TiffError,
> {
    match query {
        TiffQuery::SensorMarker => {
            if tag == TAG_CFA_REPEAT_PATTERN_DIM || tag == TAG_CFA_PATTERN {
                Ok(Some(Seq::empty()))
            } else if tag == TAG_PHOTOMETRIC && field.count == 1 {
                match spec_integer_values(bytes, field, 1) {
                    Err(e) => Err(e),
                    Ok(values) => if values.len() > 0 && is_sensor_photometric(values[0]) {
                        Ok(Some(Seq::empty()))
                    } else {
                        Ok(None)
                    },
                }
            } else {
                Ok(None)
            }
        },
        TiffQuery::IccProfile => {
            if tag != TAG_ICC_PROFILE {
                Ok(None)
            } else {
                match spec_icc_payload(bytes, field) {
                    Err(e) => Err(e),
                    Ok(profile) => Ok(Some(profile)),
                }
            }
        },
    }
}

/// The bytes held by an optional result.
pub open spec fn found_view(r: Result<Option<Vec<u8>>, TiffError>) -> Result<Option<Seq<u8>>, TiffError> {
    match r {
        Ok(Some(v)) => Ok(Some(v@)),
        Ok(None) => Ok(None),
        Err(e) => Err(e),
    }
}

fn visit(bytes: &[u8], query: TiffQuery, tag: u16, field: TiffField) -> (r: Result<
    Option<Vec<u8>>,
    TiffError,
>)
    requires
        field.file_len == bytes@.len(),
    ensures
        found_view(r) == spec_visit(bytes@, query, tag, field),
{
    match query {
        TiffQuery::SensorMarker => {
            if tag == TAG_CFA_REPEAT_PATTERN_DIM || tag == TAG_CFA_PATTERN {
                return Ok(Some(Vec::new()));
            }
            if tag == TAG_PHOTOMETRIC && field.count == 1 {
                let values = match integer_values(bytes, field, 1) {
                    Ok(values) => values,
                    Err(e) => return Err(e),
                };
                if values.len() > 0 && (values[0] == PHOTOMETRIC_CFA || values[0] == PHOTOMETRIC_LINEAR_RAW) {
                    return Ok(Some(Vec::new()));
                }
            }
            Ok(None)
        },
        TiffQuery::IccProfile => {
            if tag != TAG_ICC_PROFILE {
                return Ok(None);
            }
            match read_icc_payload(bytes, field) {
                Ok(profile) => Ok(Some(profile)),
                Err(e) => Err(e),
            }
        },
    }
}

/// The SubIFD offsets that a field adds to the pending stack.
pub open spec fn spec_subifd_step(bytes: Seq<u8>, tag: u16, field: TiffField, pending: Seq<u64>) -> Result<
    Seq<u64>,
    TiffError,
> {
    if tag == TAG_SUBIFDS && pending.len() < MAX_TIFF_SUBIFDS {
        match spec_integer_values(bytes, field, MAX_TIFF_SUBIFDS - pending.len()) {
            Err(e) => Err(e),
            Ok(offsets) => Ok(pending + nonzero_offsets(offsets)),
        }
    } else {
        Ok(pending)
    }
}

/// Visits the entries `index..entry_count` of an IFD; gives the finding, or
/// the pending stack after the last entry.
pub open spec fn spec_walk_entries(
    bytes: Seq<u8>,
    header: TiffHeader,
    query: TiffQuery,
    entries_start: int,
    entry_count: int,
    index: int,
    pending: Seq<u64>,
) -> Result<(Option<Seq<u8>>, Seq<u64>), TiffError>
    decreases entry_count - index,
{
    if index >= entry_count {
        Ok((None, pending))
    } else {
        let at = entries_start + index * entry_size(header.big_tiff);
        let tag = spec_entry_tag(bytes, header, at);
        let field = spec_entry_field(bytes, header, at);
        match spec_visit(bytes, query, tag, field) {
            Err(e) => Err(e),
            Ok(Some(found)) => Ok((Some(found), pending)),
            Ok(None) => match spec_subifd_step(bytes, tag, field, pending) {
                Err(e) => Err(e),
                Ok(next) => spec_walk_entries(
                    bytes,
                    header,
                    query,
                    entries_start,
                    entry_count,
                    index + 1,
                    next,
                ),
            },
        }
    }
}

/// Visits the IFD at `ifd_offset`; gives the finding, or the pending stack
/// with the next IFD of the chain pushed.
pub open spec fn spec_walk_ifd(
    bytes: Seq<u8>,
    header: TiffHeader,
    query: TiffQuery,
    ifd_offset: u64,
    pending: Seq<u64>,
) -> Result<(Option<Seq<u8>>, Seq<u64>), TiffError> {
    let big = header.big_tiff;
    if ifd_offset >= header.file_len {
        Err(TiffError::IfdOffsetOutsideFile)
    } else if ifd_offset + entry_count_size(big) > header.file_len {
        Err(TiffError::TruncatedIfd)
    } else {
        let entry_count = uint_at(bytes, ifd_offset as int, entry_count_size(big) as nat, header.order);
        let entries_start = ifd_offset + entry_count_size(big);
        let next_pos = entries_start + entry_count * entry_size(big);
        if entry_count > MAX_TIFF_IFD_ENTRIES {
            Err(TiffError::TooManyIfdEntries)
        } else if next_pos > u64::MAX {
            Err(TiffError::IfdSizeOverflow)
        } else if next_pos + link_size(big) > header.file_len {
            Err(TiffError::IfdOutsideFile)
        } else {
            match spec_walk_entries(bytes, header, query, entries_start, entry_count as int, 0, pending) {
                Err(e) => Err(e),
                Ok((Some(found), rest)) => Ok((Some(found), rest)),
                Ok((None, rest)) => {
                    let next_ifd = uint_at(bytes, next_pos, link_size(big) as nat, header.order);
                    Ok((None, if next_ifd != 0 { rest.push(next_ifd as u64) } else { rest }))
                },
            }
        }
    }
}

/// A walk result with the pending stack it left.
pub open spec fn ifd_result_view(r: Result<Option<Vec<u8>>, TiffError>, pending: Seq<u64>) -> Result<
    (Option<Seq<u8>>, Seq<u64>),
    TiffError,
> {
    match r {
        Ok(Some(v)) => Ok((Some(v@), pending)),
        Ok(None) => Ok((None, pending)),
        Err(e) => Err(e),
    }
}

fn walk_ifd(
    bytes: &[u8],
    header: TiffHeader,
    query: TiffQuery,
    ifd_offset: u64,
    pending: &mut Vec<u64>,
) -> (r: Result<Option<Vec<u8>>, TiffError>)
    requires
        header.file_len == bytes@.len(),
    ensures
        ifd_result_view(r, final(pending)@) == spec_walk_ifd(bytes@, header, query, ifd_offset, old(pending)@),
{
    let _len = bytes.len();
    let big = header.big_tiff;
    let count_bytes: u64 = if big { 8 } else { 2 };
    if ifd_offset >= header.file_len {
        return Err(TiffError::IfdOffsetOutsideFile);
    }
    if count_bytes > header.file_len - ifd_offset {
        return Err(TiffError::TruncatedIfd);
    }
    let entry_count = read_uint(bytes, ifd_offset as usize, count_bytes as usize, header.order);
    if entry_count > MAX_TIFF_IFD_ENTRIES {
        return Err(TiffError::TooManyIfdEntries);
    }
    let size: u64 = if big { 20 } else { 12 };
    let link: u64 = if big { 8 } else { 4 };
    let entries_start = ifd_offset + count_bytes;
    let next_pos = match entries_start.checked_add(entry_count * size) {
        Some(next_pos) => next_pos,
        None => return Err(TiffError::IfdSizeOverflow),
    };
    match next_pos.checked_add(link) {
        Some(end) => {
            if end > header.file_len {
                return Err(TiffError::IfdOutsideFile);
            }
        },
        None => return Err(TiffError::IfdOutsideFile),
    }
    let ghost start_pending = pending@;
    let mut index: u64 = 0;
    while index < entry_count
        invariant
            header.file_len == bytes@.len(),
            big == header.big_tiff,
            size == entry_size(big),
            link == link_size(big),
            start_pending == old(pending)@,
            ifd_offset < header.file_len,
            ifd_offset + entry_count_size(big) <= header.file_len,
            entry_count == uint_at(bytes@, ifd_offset as int, entry_count_size(big) as nat, header.order),
            entries_start == ifd_offset + entry_count_size(big),
            entry_count <= MAX_TIFF_IFD_ENTRIES,
            next_pos == entries_start + entry_count * size,
            next_pos + link_size(big) <= bytes@.len(),
            0 <= index <= entry_count,
            spec_walk_entries(bytes@, header, query, entries_start as int, entry_count as int, index as int, pending@)
                == spec_walk_entries(
                bytes@,
                header,
                query,
                entries_start as int,
                entry_count as int,
                0,
                start_pending,
            ),
        decreases entry_count - index,
    {
        proof {
            assert(index * size + size <= entry_count * size) by (nonlinear_arith)
                requires
                    index < entry_count,
                    size >= 0,
            ;
        }
        let at = entries_start + index * size;
        let (tag, field) = read_entry(bytes, header, at);
        match visit(bytes, query, tag, field) {
            Err(e) => return Err(e),
            Ok(Some(found)) => return Ok(Some(found)),
            Ok(None) => {},
        }
        if tag == TAG_SUBIFDS && (pending.len() as u64) < MAX_TIFF_SUBIFDS {
            let limit = (MAX_TIFF_SUBIFDS as usize) - pending.len();
            let offsets = match integer_values(bytes, field, limit) {
                Ok(offsets) => offsets,
                Err(e) => return Err(e),
            };
            append_nonzero(pending, &offsets);
        }
        index += 1;
    }
    let next_ifd = read_uint(bytes, next_pos as usize, link as usize, header.order);
    if next_ifd != 0 {
        pending.push(next_ifd);
    }
    Ok(None)
}

/// Walks the IFD graph from the IFDs still pending: pops the last offset,
/// skips zero and visited offsets, refuses a walk of more than
/// [`MAX_TIFF_IFDS`] IFDs, and otherwise visits the IFD.
pub open spec fn spec_walk(
    bytes: Seq<u8>,
    header: TiffHeader,
    query: TiffQuery,
    pending: Seq<u64>,
    visited: Seq<u64>,
    inspected: int,
) -> Result<Option<Seq<u8>>, TiffError>
    decreases MAX_TIFF_IFDS - inspected, pending.len(),
{
    if pending.len() == 0 {
        Ok(None)
    } else {
        let offset = pending.last();
        let rest = pending.drop_last();
        if offset == 0 || visited.contains(offset) {
            spec_walk(bytes, header, query, rest, visited, inspected)
        } else if inspected >= MAX_TIFF_IFDS {
            Err(TiffError::TooManyIfds)
        } else {
            match spec_walk_ifd(bytes, header, query, offset, rest) {
                Err(e) => Err(e),
                Ok((Some(found), _)) => Ok(Some(found)),
                Ok((None, next)) => spec_walk(bytes, header, query, next, visited.push(offset), inspected + 1),
            }
        }
    }
}

/// The first finding of `query` in a TIFF file, in the order of the walk.
pub open spec fn spec_find(bytes: Seq<u8>, query: TiffQuery) -> Result<Option<Seq<u8>>, TiffError> {
    match spec_parse_header(bytes) {
        Err(e) => Err(e),
        Ok(header) => spec_walk(bytes, header, query, seq![header.first_ifd], Seq::empty(), 0),
    }
}

fn contains_offset(offsets: &Vec<u64>, offset: u64) -> (r: bool)
    ensures
        r == offsets@.contains(offset),
{
    let mut i: usize = 0;
    while i < offsets.len()
        invariant
            0 <= i <= offsets@.len(),
            forall|k: int| 0 <= k < i ==> offsets@[k] != offset,
        decreases offsets@.len() - i,
    {
        if offsets[i] == offset {
            return true;
        }
        i += 1;
    }
    false
}

/// Walks the IFDs of a TIFF file and stops at the first field that `query`
/// accepts.
pub fn walk_tiff_fields(bytes: &[u8], query: TiffQuery) -> (r: Result<Option<Vec<u8>>, TiffError>)
    ensures
        found_view(r) == spec_find(bytes@, query),
{
    let len = bytes.len();
    let header = match parse_header(bytes) {
        Ok(header) => header,
        Err(e) => return Err(e),
    };
    assert(header.file_len == len);
    let mut pending: Vec<u64> = Vec::new();
    pending.push(header.first_ifd);
    let mut visited: Vec<u64> = Vec::new();
    let mut inspected: u64 = 0;
    proof {
        assert(pending@ =~= seq![header.first_ifd]);
    }
    while pending.len() > 0
        invariant
            header.file_len == bytes@.len(),
            inspected <= MAX_TIFF_IFDS,
            spec_walk(bytes@, header, query, pending@, visited@, inspected as int) == spec_find(bytes@, query),
        decreases MAX_TIFF_IFDS - inspected, pending@.len(),
    {
        let offset = match pending.pop() {
            Some(offset) => offset,
            None => return Ok(None),
        };
        if offset == 0 || contains_offset(&visited, offset) {
            continue;
        }
        if inspected >= MAX_TIFF_IFDS {
            return Err(TiffError::TooManyIfds);
        }
        visited.push(offset);
        inspected += 1;
        match walk_ifd(bytes, header, query, offset, &mut pending) {
            Err(e) => return Err(e),
            Ok(Some(found)) => return Ok(Some(found)),
            Ok(None) => {},
        }
    }
    Ok(None)
}

/// How a TIFF file is to be loaded.
pub open spec fn spec_container_kind(bytes: Seq<u8>) -> Result<TiffContainerKind, TiffError> {
    match spec_find(bytes, TiffQuery::SensorMarker) {
        Err(e) => Err(e),
        Ok(Some(_)) => Ok(TiffContainerKind::Sensor),
        Ok(None) => Ok(TiffContainerKind::Raster),
    }
}

/// Decides whether a TIFF file holds sensor data (a CFA pattern tag, or a
/// CFA or LinearRaw photometric interpretation in any IFD reached) or a
/// rendered raster.
pub fn inspect_tiff_container(bytes: &[u8]) -> (r: Result<TiffContainerKind, TiffError>)
    ensures
        r == spec_container_kind(bytes@),
{
    match walk_tiff_fields(bytes, TiffQuery::SensorMarker) {
        Err(e) => Err(e),
        Ok(Some(_)) => Ok(TiffContainerKind::Sensor),
        Ok(None) => Ok(TiffContainerKind::Raster),
    }
}

/// The embedded ICC profile of a TIFF file, cut to its declared size.
pub fn read_embedded_icc_profile(bytes: &[u8]) -> (r: Result<Option<Vec<u8>>, TiffError>)
    ensures
        found_view(r) == spec_find(bytes@, TiffQuery::IccProfile),
{
    walk_tiff_fields(bytes, TiffQuery::IccProfile)
}


/// Normalising a normalised profile gives it back unchanged.
pub proof fn lemma_normalize_icc_idempotent(profile: Seq<u8>)
    requires
        spec_normalize_icc(profile) is Ok,
    ensures
        spec_normalize_icc(spec_normalize_icc(profile)->Ok_0) == spec_normalize_icc(profile),
{
    let declared = uint_be(profile, 0, 4);
    let cut = profile.take(declared as int);
    assert(uint_be(cut, 0, 4) == declared) by {
        reveal_with_fuel(uint_be, 5);
    }
    assert(cut.take(declared as int) =~= cut);
}

/// The extension names a TIFF file, ignoring ASCII case.
pub open spec fn is_tiff_extension(extension: Seq<char>) -> bool {
    eq_ignore_ascii_case(extension, "tif"@) || eq_ignore_ascii_case(extension, "tiff"@)
}

/// Whether `path` ends in `.tif` or `.tiff`, ignoring ASCII case.
pub fn is_tiff_path(path: &str) -> (r: bool)
    ensures
        r == (path_extension(path@) matches Some(extension) && is_tiff_extension(extension)),
{
    let extension = match extension_of(path) {
        Some(extension) => extension,
        None => return false,
    };
    let extension = chars_of(extension.as_str());
    let short = chars_of("tif");
    let long = chars_of("tiff");
    chars_eq_ignore_ascii_case(&extension, &short) || chars_eq_ignore_ascii_case(&extension, &long)
}

/// A photometric interpretation field with one value marks sensor data
/// exactly when the value is a colour filter array (32803) or linear raw
/// data (34892): both are sensor data alike, and any other value marks
/// nothing.
pub proof fn lemma_sensor_photometrics_mark_sensor(bytes: Seq<u8>, field: TiffField)
    requires
        field.count == 1,
        spec_integer_values(bytes, field, 1) is Ok,
        spec_integer_values(bytes, field, 1)->Ok_0.len() > 0,
    ensures
        ({
            let value = spec_integer_values(bytes, field, 1)->Ok_0[0];
            spec_visit(bytes, TiffQuery::SensorMarker, TAG_PHOTOMETRIC, field) == if value == 32803 || value
                == 34892 {
                Ok::<Option<Seq<u8>>, TiffError>(Some(Seq::empty()))
            } else {
                Ok::<Option<Seq<u8>>, TiffError>(None)
            }
        }),
{
}

/// The CFA repeat-pattern dimension (33421) and CFA pattern (33422) tags
/// mark sensor data whatever their values, and a tag that is neither
/// these nor the photometric interpretation marks nothing.
pub proof fn lemma_cfa_tags_mark_sensor(bytes: Seq<u8>, field: TiffField, tag: u16)
    ensures
        spec_visit(bytes, TiffQuery::SensorMarker, 33421, field) == Ok::<Option<Seq<u8>>, TiffError>(
            Some(Seq::empty()),
        ),
        spec_visit(bytes, TiffQuery::SensorMarker, 33422, field) == Ok::<Option<Seq<u8>>, TiffError>(
            Some(Seq::empty()),
        ),
        tag != 33421 && tag != 33422 && tag != 262 ==> spec_visit(bytes, TiffQuery::SensorMarker, tag, field)
            == Ok::<Option<Seq<u8>>, TiffError>(None),
{
}

} // verus!
