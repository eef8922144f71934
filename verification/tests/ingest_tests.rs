use base64::Engine;
use vox::ingest::{decode_audio, detect_format, IngestError, MAX_AUDIO_BYTES};
use vox::types::AudioFormat;

#[test]
fn decode_should_roundtrip_base64_payloads() {
    let input = decode_audio("aGVsbG8=", AudioFormat::Wav).expect("decode");
    assert_eq!(input.bytes, b"hello");
    assert_eq!(input.format, AudioFormat::Wav);
}

#[test]
fn decode_should_reject_invalid_base64() {
    let err = decode_audio("!!!not-base64!!!", AudioFormat::Mp3).expect_err("must reject");
    assert!(matches!(err, IngestError::Base64(_)));
}

#[test]
fn decode_should_reject_empty_payloads() {
    let err = decode_audio("", AudioFormat::Flac).expect_err("must reject");
    assert!(matches!(err, IngestError::EmptyAudio));
}

#[test]
fn decode_should_enforce_the_size_cap() {
    let oversized = vec![0u8; MAX_AUDIO_BYTES + 1];
    let encoded = base64::engine::general_purpose::STANDARD.encode(oversized);
    let err = decode_audio(&encoded, AudioFormat::Wav).expect_err("must reject");
    assert!(matches!(
        err,
        IngestError::TooLarge {
            max_bytes: MAX_AUDIO_BYTES,
            ..
        }
    ));
}

#[test]
fn detect_should_recognize_wav_flac_and_mp3_sync() {
    let mut wav = b"RIFF".to_vec();
    wav.extend_from_slice(b"xxxxWAVE");
    assert_eq!(detect_format(&wav), Some(AudioFormat::Wav));
    assert_eq!(detect_format(b"fLaC..."), Some(AudioFormat::Flac));
    assert_eq!(detect_format(b"ID3\x04"), Some(AudioFormat::Mp3));
    assert_eq!(detect_format(&[0xFF, 0xFB, 0x90]), Some(AudioFormat::Mp3));
    assert_eq!(detect_format(b"unknown"), None);
    assert_eq!(detect_format(&[]), None);
}

#[test]
fn decode_should_ignore_surrounding_white_space() {
    let input = decode_audio("  aGVsbG8=\n", AudioFormat::Mp3).expect("decode");
    assert_eq!(input.bytes, b"hello");
    assert_eq!(input.format, AudioFormat::Mp3);
}

#[test]
fn decode_should_accept_exactly_the_size_cap() {
    let at_cap = vec![7u8; MAX_AUDIO_BYTES];
    let encoded = base64::engine::general_purpose::STANDARD.encode(&at_cap);
    let input = decode_audio(&encoded, AudioFormat::Wav).expect("at the cap is accepted");
    assert_eq!(input.bytes.len(), MAX_AUDIO_BYTES);
}

#[test]
fn detect_should_require_the_wave_tag_for_riff() {
    assert_eq!(detect_format(b"RIFFxxxxAVI LIST"), None);
    assert_eq!(detect_format(b"RIFFxxxxWAV"), None);
    assert_eq!(detect_format(&[0xFF, 0x1F]), None);
}
