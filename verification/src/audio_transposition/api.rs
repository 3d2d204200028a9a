use crate::text::{decimal, decimal_string};
use vstd::prelude::*;

verus! {

/// An error answered to a client, with its message.
pub struct CustomError {
    pub message: String,
}

/// A request to transcribe audio: 16-bit little-endian PCM samples, in base64.
pub struct TranscribeRequest {
    pub audio: String,
}

/// The answer to a transcription request.
pub struct TranscribeResponse {
    pub transcription: String,
}

/// Why base64 decoding refused its input, as the base64 crate reports it.
#[derive(Clone, Copy, Debug, PartialEq, Eq, Structural)]
pub enum Base64Error {
    /// A byte outside the alphabet, with its offset and value.
    InvalidByte(usize, u8),
    /// A length that leaves a 6-bit remainder.
    InvalidLength,
    /// A last symbol whose discarded bits are not zero, with its offset and value.
    InvalidLastSymbol(usize, u8),
    /// Padding absent or not canonical.
    InvalidPadding,
}

/// What standard base64 decoding (`base64::decode`, the `STANDARD` engine:
/// standard alphabet, canonical padding required) gives for `input`: its bytes,
/// or why it is refused.
pub uninterp spec fn base64_decoded(input: Seq<char>) -> Result<Seq<u8>, Base64Error>;

/// `base64::decode` on the bytes of `input`: the result, bytes or error, is
/// the one that `base64_decoded` names; the error is `base64::DecodeError`
/// variant for variant.
#[verifier::external_body]
#[allow(deprecated)]
fn decode_base64(input: &str) -> (r: Result<Vec<u8>, Base64Error>)
    ensures
        match r {
            Ok(bytes) => base64_decoded(input@) == Ok::<Seq<u8>, Base64Error>(bytes@),
            Err(e) => base64_decoded(input@) == Err::<Seq<u8>, Base64Error>(e),
        },
{
    match base64::decode(input) {
        Ok(bytes) => Ok(bytes),
        Err(base64::DecodeError::InvalidByte(index, byte)) => Err(Base64Error::InvalidByte(index, byte)),
        Err(base64::DecodeError::InvalidLength) => Err(Base64Error::InvalidLength),
        Err(base64::DecodeError::InvalidLastSymbol(index, byte)) => Err(Base64Error::InvalidLastSymbol(index, byte)),
        Err(base64::DecodeError::InvalidPadding) => Err(Base64Error::InvalidPadding),
    }
}

/// The text that the base64 crate displays for a decoding error.
pub open spec fn base64_error_text(e: Base64Error) -> Seq<char> {
    match e {
        Base64Error::InvalidByte(index, byte) => "Invalid byte "@ + decimal(byte as nat)
            + ", offset "@ + decimal(index as nat) + "."@,
        Base64Error::InvalidLength => "Encoded text cannot have a 6-bit remainder."@,
        Base64Error::InvalidLastSymbol(index, byte) => "Invalid last symbol "@ + decimal(
            byte as nat,
        ) + ", offset "@ + decimal(index as nat) + "."@,
        Base64Error::InvalidPadding => "Invalid padding"@,
    }
}

impl Base64Error {
    /// The text of the error, as the base64 crate displays it.
    pub fn message(&self) -> (text: String)
        ensures
            text@ == base64_error_text(*self),
    {
        match *self {
            Base64Error::InvalidByte(index, byte) => {
                let mut text = String::from_str("Invalid byte ");
                let b = decimal_string(byte as usize);
                text.append(b.as_str());
                text.append(", offset ");
                let i = decimal_string(index);
                text.append(i.as_str());
                text.append(".");
                text
            },
            Base64Error::InvalidLength => String::from_str(
                "Encoded text cannot have a 6-bit remainder.",
            ),
            Base64Error::InvalidLastSymbol(index, byte) => {
                let mut text = String::from_str("Invalid last symbol ");
                let b = decimal_string(byte as usize);
                text.append(b.as_str());
                text.append(", offset ");
                let i = decimal_string(index);
                text.append(i.as_str());
                text.append(".");
                text
            },
            Base64Error::InvalidPadding => String::from_str("Invalid padding"),
        }
    }
}

/// The sample that two bytes, low then high, encode in 16-bit little-endian
/// two's complement.
pub open spec fn le_i16(lo: u8, hi: u8) -> i16 {
    let v = lo as int + 256 * hi as int;
    (if v >= 32768 {
        v - 65536
    } else {
        v
    }) as i16
}

/// The samples that `bytes` encode, two bytes each; an odd last byte is ignored.
pub open spec fn le_samples(bytes: Seq<u8>) -> Seq<i16> {
    Seq::new(bytes.len() / 2, |i: int| le_i16(bytes[2 * i], bytes[2 * i + 1]))
}

/// The 16-bit little-endian samples in `bytes`, as `chunks_exact(2)` with
/// `i16::from_le_bytes` reads them.
pub fn samples_from_le_bytes(bytes: &[u8]) -> (samples: Vec<i16>)
    ensures
        samples@ == le_samples(bytes@),
{
    let blen = bytes.len();
    let n = blen / 2;
    let mut samples: Vec<i16> = Vec::new();
    let mut i: usize = 0;
    while i < n
        invariant
            blen == bytes@.len(),
            n == bytes@.len() / 2,
            i <= n,
            samples@ =~= le_samples(bytes@).take(i as int),
        decreases n - i,
    {
        let lo = bytes[2 * i];
        let hi = bytes[2 * i + 1];
        let v: i32 = lo as i32 + 256 * hi as i32;
        let sample: i16 = if v >= 32768 {
            (v - 65536) as i16
        } else {
            v as i16
        };
        samples.push(sample);
        i = i + 1;
    }
    samples
}

/// The message a client is answered with when its audio is refused.
pub open spec fn base64_error_message(e: Base64Error) -> Seq<char> {
    "Base64 decoding error: "@ + base64_error_text(e)
}

/// Decodes the audio of a request: base64 to bytes, bytes to 16-bit
/// little-endian samples. Refused base64 gives an error whose message is
/// "Base64 decoding error: " followed by the decoder's own text.
pub fn decode_request_audio(request: &TranscribeRequest) -> (r: Result<Vec<i16>, CustomError>)
    ensures
        match base64_decoded(request.audio@) {
            Ok(bytes) => r matches Ok(samples) && samples@ == le_samples(bytes),
            Err(e) => r matches Err(c) && c.message@ == base64_error_message(e),
        },
{
    match decode_base64(request.audio.as_str()) {
        Ok(bytes) => Ok(samples_from_le_bytes(bytes.as_slice())),
        Err(err) => {
            let detail = err.message();
            let mut message = String::from_str("Base64 decoding error: ");
            message.append(detail.as_str());
            Err(CustomError { message })
        },
    }
}

} // verus!
