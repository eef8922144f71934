//! Voice ingestion boundary: decode and sanity-check uploaded audio before
//! it reaches a speech recognizer.
//!
//! Scope: base64 decoding, emptiness and size-cap enforcement, and
//! best-effort container sniffing.

use vstd::prelude::*;

use crate::text::{trim_seq, trim_str};
use crate::types::AudioFormat;

use base64::Engine;

verus! {

/// Hard cap on decoded audio size accepted per request (10 MiB).
pub const MAX_AUDIO_BYTES: usize = 10485760;

/// The error type of the base64 decoder.
#[verifier::external_type_specification]
#[verifier::external_body]
pub struct ExDecodeError(base64::DecodeError);

/// What the standard-alphabet, padded base64 engine decodes the text `input`
/// to: `Some(bytes)` when it accepts the text, `None` when it rejects it.
pub uninterp spec fn base64_standard_decode(input: Seq<char>) -> Option<Seq<u8>>;

/// `base64::engine::general_purpose::STANDARD.decode`, on the bytes of `s`.
/// The result is the named decoding of `s`; which rejection the error
/// describes is not stated.
#[verifier::external_body]
fn decode_base64(s: &str) -> (r: Result<Vec<u8>, base64::DecodeError>)
    ensures
        match r {
            Ok(bytes) => base64_standard_decode(s@) == Some(bytes@),
            Err(_) => base64_standard_decode(s@) is None,
        },
{
    base64::engine::general_purpose::STANDARD.decode(s.as_bytes())
}

/// The `Display` text of a base64 decoding error. Its wording is not stated.
#[verifier::external_body]
fn decode_error_text(e: &base64::DecodeError) -> (t: String) {
    e.to_string()
}

/// Failures raised while ingesting a voice payload.
#[derive(Debug)]
pub enum IngestError {
    /// The payload is not valid base64; carries the decoder's message.
    Base64(String),
    /// The payload decoded to zero bytes.
    EmptyAudio,
    /// The decoded payload exceeds [`MAX_AUDIO_BYTES`].
    TooLarge {
        /// Decoded size in bytes.
        size_bytes: usize,
        /// Configured cap in bytes.
        max_bytes: usize,
    },
}

/// Validated audio ready for transcription.
#[derive(Debug, Clone)]
pub struct AudioInput {
    /// Declared container format.
    pub format: AudioFormat,
    /// Decoded audio bytes.
    pub bytes: Vec<u8>,
}

/// What validating decoded `bytes` gives: the audio itself, or the size
/// error it breaks.
pub open spec fn audio_check(bytes: Seq<u8>, format: AudioFormat, r: Result<AudioInput, IngestError>) -> bool {
    if bytes.len() == 0 {
        r matches Err(IngestError::EmptyAudio)
    } else if bytes.len() > MAX_AUDIO_BYTES {
        r matches Err(IngestError::TooLarge { size_bytes, max_bytes })
            && size_bytes == bytes.len() && max_bytes == MAX_AUDIO_BYTES
    } else {
        r matches Ok(input) && input.format == format && input.bytes@ == bytes
    }
}

/// Applies the emptiness and size checks to already decoded bytes.
///
/// # Errors
/// - [`IngestError::EmptyAudio`] when `bytes` is empty.
/// - [`IngestError::TooLarge`] when it exceeds [`MAX_AUDIO_BYTES`].
pub fn check_decoded_audio(bytes: Vec<u8>, format: AudioFormat) -> (r: Result<AudioInput, IngestError>)
    ensures
        audio_check(bytes@, format, r),
{
    if bytes.len() == 0 {
        return Err(IngestError::EmptyAudio);
    }
    let size_bytes = bytes.len();
    if size_bytes > MAX_AUDIO_BYTES {
        return Err(IngestError::TooLarge { size_bytes, max_bytes: MAX_AUDIO_BYTES });
    }
    Ok(AudioInput { format, bytes })
}

/// Decodes and validates a base64-encoded audio payload. Surrounding white
/// space is ignored.
///
/// # Errors
/// - [`IngestError::Base64`] when the payload is not valid base64.
/// - [`IngestError::EmptyAudio`] when it decodes to zero bytes.
/// - [`IngestError::TooLarge`] when it exceeds [`MAX_AUDIO_BYTES`].
pub fn decode_audio(audio_base64: &str, format: AudioFormat) -> (r: Result<AudioInput, IngestError>)
    ensures
        match base64_standard_decode(trim_seq(audio_base64@)) {
            None => r matches Err(IngestError::Base64(_)),
            Some(bytes) => audio_check(bytes, format, r),
        },
{
    let trimmed = trim_str(audio_base64);
    match decode_base64(trimmed.as_str()) {
        Ok(bytes) => check_decoded_audio(bytes, format),
        Err(e) => Err(IngestError::Base64(decode_error_text(&e))),
    }
}

/// `bytes` opens with `prefix`.
pub open spec fn starts_with(bytes: Seq<u8>, prefix: Seq<u8>) -> bool {
    prefix.len() <= bytes.len() && bytes.subrange(0, prefix.len() as int) == prefix
}

/// The container that the magic bytes at the start of `bytes` announce.
pub open spec fn sniffed_format(bytes: Seq<u8>) -> Option<AudioFormat> {
    if bytes.len() >= 12 && starts_with(bytes, seq![0x52u8, 0x49, 0x46, 0x46])
        && bytes.subrange(8, 12) == seq![0x57u8, 0x41, 0x56, 0x45] {
        Some(AudioFormat::Wav)
    } else if starts_with(bytes, seq![0x66u8, 0x4C, 0x61, 0x43]) {
        Some(AudioFormat::Flac)
    } else if starts_with(bytes, seq![0x49u8, 0x44, 0x33]) || (bytes.len() >= 2 && bytes[0]
        == 0xFF && (bytes[1] & 0xE0) == 0xE0) {
        Some(AudioFormat::Mp3)
    } else {
        None
    }
}

/// Whether `bytes[at..]` opens with `pattern`.
fn bytes_at(bytes: &[u8], at: usize, pattern: &[u8]) -> (r: bool)
    ensures
        r == (at + pattern@.len() <= bytes@.len() && bytes@.subrange(
            at as int,
            at + pattern@.len(),
        ) == pattern@),
{
    let n = bytes.len();
    let m = pattern.len();
    if at > n || n - at < m {
        return false;
    }
    let mut j: usize = 0;
    while j < m
        invariant
            n == bytes@.len(),
            m == pattern@.len(),
            at + m <= n,
            j <= m,
            forall|k: int| 0 <= k < j ==> bytes@[at + k] == pattern@[k],
        decreases m - j,
    {
        if bytes[at + j] != pattern[j] {
            assert(bytes@.subrange(at as int, at + m)[j as int] != pattern@[j as int]);
            return false;
        }
        j += 1;
    }
    assert(bytes@.subrange(at as int, at + m) =~= pattern@);
    true
}

/// Best-effort container sniffing from magic bytes.
///
/// Used for diagnostics; the declared [`AudioFormat`] remains authoritative.
pub fn detect_format(bytes: &[u8]) -> (r: Option<AudioFormat>)
    ensures
        r == sniffed_format(bytes@),
{
    let riff: Vec<u8> = vec![0x52, 0x49, 0x46, 0x46];
    let wave: Vec<u8> = vec![0x57, 0x41, 0x56, 0x45];
    let flac: Vec<u8> = vec![0x66, 0x4C, 0x61, 0x43];
    let id3: Vec<u8> = vec![0x49, 0x44, 0x33];
    assert(riff@ =~= seq![0x52u8, 0x49, 0x46, 0x46]);
    assert(wave@ =~= seq![0x57u8, 0x41, 0x56, 0x45]);
    assert(flac@ =~= seq![0x66u8, 0x4C, 0x61, 0x43]);
    assert(id3@ =~= seq![0x49u8, 0x44, 0x33]);
    if bytes.len() >= 12 && bytes_at(bytes, 0, riff.as_slice()) && bytes_at(bytes, 8, wave.as_slice()) {
        Some(AudioFormat::Wav)
    } else if bytes_at(bytes, 0, flac.as_slice()) {
        Some(AudioFormat::Flac)
    } else if bytes_at(bytes, 0, id3.as_slice()) || (bytes.len() >= 2 && bytes[0] == 0xFF && (bytes[1]
        & 0xE0) == 0xE0) {
        Some(AudioFormat::Mp3)
    } else {
        None
    }
}

} // verus!
