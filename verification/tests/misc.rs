use ferrox::ai::{AiError, StubBackend};
use ferrox::codecs::audio::{downmix_to_stereo, kbps_to_bitrate, Mp3Bitrate, Mp3Encoder, OpusEncoder, SymphoniaDecoder};
use ferrox::frame::{solid_canvas, PixelFormat};
use ferrox::kinds::BlendMode;

#[test]
fn stub_backend_reports_not_configured() {
    let ai = StubBackend;
    let color: Result<Vec<(f64, u8)>, AiError> = ai.answer();
    assert!(matches!(color, Err(AiError::NotConfigured)));
    let roto: Result<Vec<u8>, AiError> = ai.answer();
    assert!(matches!(roto, Err(AiError::NotConfigured)));
    let voice: Result<(), AiError> = ai.answer();
    assert!(matches!(voice, Err(AiError::NotConfigured)));
    let gen: Result<String, AiError> = ai.answer();
    assert!(matches!(gen, Err(AiError::NotConfigured)));
    let vo: Result<u32, AiError> = ai.answer();
    assert!(matches!(vo, Err(AiError::NotConfigured)));
}

#[test]
fn ai_error_messages() {
    assert_eq!(AiError::NotConfigured.message(), "AI backend not configured for this capability");
    assert_eq!(AiError::Backend("timeout".into()).message(), "AI backend error: timeout");
}

#[test]
fn blend_mode_default_is_normal() {
    assert_eq!(BlendMode::default(), BlendMode::Normal);
    assert!(BlendMode::Normal.is_normal());
    assert!(!BlendMode::Multiply.is_normal());
}

#[test]
fn solid_canvas_is_opaque() {
    let f = solid_canvas(2, 1, [10, 20, 30]);
    assert_eq!(f.format, PixelFormat::Rgba8);
    assert_eq!(f.data, vec![10, 20, 30, 255, 10, 20, 30, 255]);
}

#[test]
fn mp3_bitrate_rounds_up() {
    assert_eq!(kbps_to_bitrate(1), Mp3Bitrate::Kbps40);
    assert_eq!(kbps_to_bitrate(128), Mp3Bitrate::Kbps128);
    assert_eq!(kbps_to_bitrate(129), Mp3Bitrate::Kbps160);
    assert_eq!(kbps_to_bitrate(1000), Mp3Bitrate::Kbps320);
    assert_eq!(Mp3Encoder::cbr(256).opts.bitrate_kbps, Some(256));
    assert_eq!(Mp3Encoder::new().opts.bitrate_kbps, Some(192));
}

#[test]
fn opus_and_symphonia_defaults() {
    assert_eq!(OpusEncoder::new().opts.bitrate_bps, 128_000);
    assert_eq!(OpusEncoder::with_bitrate(64_000).opts.bitrate_bps, 64_000);
    assert!(SymphoniaDecoder::new().ext_hint.is_none());
    assert_eq!(SymphoniaDecoder::with_ext("mp3").ext_hint.as_deref(), Some("mp3"));
}

#[test]
fn downmix_averages_channel_pairs() {
    assert_eq!(downmix_to_stereo(&[1, 2, 3, 4], 2), vec![1, 2, 3, 4]);
    assert_eq!(downmix_to_stereo(&[10, 20], 1), vec![10, 10, 20, 20]);
}
