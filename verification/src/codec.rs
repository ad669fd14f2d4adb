//! Text encodings of pixel payloads stored in edit sidecars: standard base64
//! of raw bytes, and of 16-bit samples in little-endian byte order.
use vstd::prelude::*;
use base64::Engine as _;

verus! {

/// What `base64::engine::general_purpose::STANDARD.encode` returns for `bytes`.
pub uninterp spec fn base64_standard_encoded(bytes: Seq<u8>) -> Seq<char>;

/// What `base64::engine::general_purpose::STANDARD.decode` returns for `text`,
/// with the decode error mapped to `None`.
pub uninterp spec fn base64_standard_decoded(text: Seq<char>) -> Option<Seq<u8>>;

/// Length of padded standard base64 for `n` input bytes.
pub open spec fn base64_padded_len(n: int) -> int {
    (n / 3) * 4 + if n % 3 > 0 { 4int } else { 0int }
}

/// Calls `STANDARD.encode` (padded standard alphabet). Its source computes
/// the output length with `encoded_len`, panicking on overflow, which the
/// requirement rules out; the contract names the text and states its length.
#[verifier::external_body]
fn base64_encode(bytes: &[u8]) -> (r: String)
    requires
        base64_padded_len(bytes@.len() as int) <= usize::MAX,
    ensures
        r@ == base64_standard_encoded(bytes@),
        r@.len() == base64_padded_len(bytes@.len() as int),
{
    base64::engine::general_purpose::STANDARD.encode(bytes)
}

/// The byte sequence held by an optional buffer.
pub open spec fn bytes_option_view(o: Option<Vec<u8>>) -> Option<Seq<u8>> {
    match o {
        Some(v) => Some(v@),
        None => None,
    }
}

/// Calls `STANDARD.decode`, mapping its `DecodeError` to `None`. Besides
/// naming the result, the contract states the round trip that the crate's
/// documentation and tests give: text produced by `STANDARD.encode` decodes
/// to the bytes that were encoded.
#[verifier::external_body]
fn base64_decode(text: &str) -> (r: Option<Vec<u8>>)
    ensures
        bytes_option_view(r) == base64_standard_decoded(text@),
        forall|bytes: Seq<u8>|
            #[trigger] base64_standard_encoded(bytes) == text@ ==> bytes_option_view(r) == Some(bytes),
{
    base64::engine::general_purpose::STANDARD.decode(text).ok()
}

/// Why stored payload text could not be turned back into samples.
#[derive(Clone, Copy, Debug, PartialEq, Eq, Structural)]
pub enum PayloadDecodeError {
    /// The text is not padded standard base64.
    InvalidBase64,
    /// The decoded bytes cannot be split into 16-bit samples.
    OddByteLength,
}

impl PayloadDecodeError {
    pub fn message(self) -> (r: &'static str)
        ensures
            r@ == (match self {
                PayloadDecodeError::InvalidBase64 => "payload is not valid base64"@,
                PayloadDecodeError::OddByteLength => "RGB16 patch byte length is odd"@,
            }),
    {
        match self {
            PayloadDecodeError::InvalidBase64 => "payload is not valid base64",
            PayloadDecodeError::OddByteLength => "RGB16 patch byte length is odd",
        }
    }
}

/// The little-endian bytes of a sequence of 16-bit samples.
pub open spec fn u16_le_bytes(values: Seq<u16>) -> Seq<u8> {
    Seq::new(
        2 * values.len(),
        |i: int| if i % 2 == 0 { (values[i / 2] % 256) as u8 } else { (values[i / 2] / 256) as u8 },
    )
}

/// 16-bit samples read from consecutive little-endian byte pairs.
pub open spec fn u16s_from_le_bytes(bytes: Seq<u8>) -> Seq<u16> {
    Seq::new(bytes.len() / 2, |i: int| (bytes[2 * i] + 256 * bytes[2 * i + 1]) as u16)
}

/// Reading back the little-endian bytes of samples gives the samples.
pub proof fn lemma_u16_le_round_trip(values: Seq<u16>)
    ensures
        u16s_from_le_bytes(u16_le_bytes(values)) == values,
{
    let bytes = u16_le_bytes(values);
    assert forall|i: int| 0 <= i < values.len() implies #[trigger] u16s_from_le_bytes(bytes)[i] == values[i] by {
        assert(bytes[2 * i] == values[i] % 256);
        assert(bytes[2 * i + 1] == values[i] / 256);
    }
    assert(u16s_from_le_bytes(bytes) =~= values);
}

pub fn arc_u16_is_empty(values: &[u16]) -> (r: bool)
    ensures
        r == (values@.len() == 0),
{
    values.len() == 0
}

pub fn arc_u8_is_empty(values: &[u8]) -> (r: bool)
    ensures
        r == (values@.len() == 0),
{
    values.len() == 0
}

/// Standard padded base64 of raw bytes.
pub fn encode_bytes_base64(bytes: &[u8]) -> (r: String)
    requires
        base64_padded_len(bytes@.len() as int) <= usize::MAX,
    ensures
        r@ == base64_standard_encoded(bytes@),
{
    base64_encode(bytes)
}

/// Raw bytes from standard padded base64; the inverse of
/// [`encode_bytes_base64`].
pub fn decode_bytes_base64(text: &str) -> (r: Result<Vec<u8>, PayloadDecodeError>)
    ensures
        (match base64_standard_decoded(text@) {
            None => r == Err::<Vec<u8>, PayloadDecodeError>(PayloadDecodeError::InvalidBase64),
            Some(bytes) => r matches Ok(v) && v@ == bytes,
        }),
        forall|bytes: Seq<u8>|
            #[trigger] base64_standard_encoded(bytes) == text@ ==> (r matches Ok(v) && v@ == bytes),
{
    match base64_decode(text) {
        Some(bytes) => Ok(bytes),
        None => Err(PayloadDecodeError::InvalidBase64),
    }
}

/// Little-endian bytes of 16-bit samples.
pub fn u16_values_to_le_bytes(values: &[u16]) -> (r: Vec<u8>)
    requires
        2 * values@.len() <= usize::MAX,
    ensures
        r@ == u16_le_bytes(values@),
{
    let mut bytes: Vec<u8> = Vec::with_capacity(2 * values.len());
    let mut i: usize = 0;
    while i < values.len()
        invariant
            0 <= i <= values@.len(),
            bytes@ =~= u16_le_bytes(values@.take(i as int)),
        decreases values@.len() - i,
    {
        let value = values[i];
        bytes.push((value % 256) as u8);
        bytes.push((value / 256) as u8);
        i += 1;
        proof {
            let prefix = values@.take(i as int);
            assert(prefix.take((i - 1) as int) =~= values@.take((i - 1) as int));
            assert(bytes@ =~= u16_le_bytes(prefix)) by {
                assert forall|k: int| 0 <= k < 2 * prefix.len() implies #[trigger] bytes@[k] == u16_le_bytes(prefix)[k] by {
                    if k < 2 * (i - 1) {
                        assert(prefix[k / 2] == values@.take((i - 1) as int)[k / 2]);
                    }
                }
            }
        }
    }
    assert(values@.take(values@.len() as int) =~= values@);
    bytes
}

/// 16-bit samples from little-endian bytes, rejecting an odd byte count.
pub fn u16_values_from_le_bytes(bytes: &[u8]) -> (r: Result<Vec<u16>, PayloadDecodeError>)
    ensures
        bytes@.len() % 2 != 0 ==> r == Err::<Vec<u16>, PayloadDecodeError>(PayloadDecodeError::OddByteLength),
        bytes@.len() % 2 == 0 ==> (r matches Ok(v) && v@ == u16s_from_le_bytes(bytes@)),
{
    if bytes.len() % 2 != 0 {
        return Err(PayloadDecodeError::OddByteLength);
    }
    let n = bytes.len();
    let count = n / 2;
    let mut values: Vec<u16> = Vec::with_capacity(count);
    let mut i: usize = 0;
    while i < count
        invariant
            n == bytes@.len(),
            count == n / 2,
            n % 2 == 0,
            0 <= i <= count,
            values@.len() == i,
            forall|k: int| 0 <= k < i ==> #[trigger] values@[k] == u16s_from_le_bytes(bytes@)[k],
        decreases count - i,
    {
        let low = bytes[2 * i] as u16;
        let high = bytes[2 * i + 1] as u16;
        values.push(low + 256 * high);
        i += 1;
    }
    assert(values@ =~= u16s_from_le_bytes(bytes@));
    Ok(values)
}

/// Standard base64 of the little-endian bytes of 16-bit samples, the
/// sidecar form of a repaired patch.
pub fn encode_u16_le_base64(values: &[u16]) -> (r: String)
    requires
        base64_padded_len(2 * values@.len() as int) <= usize::MAX,
    ensures
        r@ == base64_standard_encoded(u16_le_bytes(values@)),
{
    let bytes = u16_values_to_le_bytes(values);
    base64_encode(bytes.as_slice())
}

/// Samples from the sidecar form written by [`encode_u16_le_base64`]. Text
/// that this encoder produced always decodes to the samples it encoded.
pub fn decode_u16_le_base64(text: &str) -> (r: Result<Vec<u16>, PayloadDecodeError>)
    ensures
        (match base64_standard_decoded(text@) {
            None => r == Err::<Vec<u16>, PayloadDecodeError>(PayloadDecodeError::InvalidBase64),
            Some(bytes) => if bytes.len() % 2 != 0 {
                r == Err::<Vec<u16>, PayloadDecodeError>(PayloadDecodeError::OddByteLength)
            } else {
                r matches Ok(v) && v@ == u16s_from_le_bytes(bytes)
            },
        }),
        forall|values: Seq<u16>|
            #[trigger] base64_standard_encoded(u16_le_bytes(values)) == text@ ==> (r matches Ok(v) && v@
                == values),
{
    let decoded = base64_decode(text);
    proof {
        assert forall|values: Seq<u16>|
            #[trigger] base64_standard_encoded(u16_le_bytes(values)) == text@ implies (decoded matches Some(b) && b@ == u16_le_bytes(values)) by {
            let b = u16_le_bytes(values);
            assert(base64_standard_encoded(b) == text@);
        }
    }
    match decoded {
        Some(bytes) => {
            let r = u16_values_from_le_bytes(bytes.as_slice());
            proof {
                assert forall|values: Seq<u16>|
                    #[trigger] base64_standard_encoded(u16_le_bytes(values)) == text@ implies (r matches Ok(v) && v@ == values) by {
                    lemma_u16_le_round_trip(values);
                    assert(bytes@ == u16_le_bytes(values));
                    assert(u16_le_bytes(values).len() % 2 == 0);
                }
            }
            r
        },
        None => Err(PayloadDecodeError::InvalidBase64),
    }
}

} // verus!
