use ferrox::error::Error;
use ferrox::extract::{
    check_decoder, extract_audio, format_output_path, mkv_audio_source, pcm_format, pcm_i16_samples,
    ContainerKind, ExtractResult, FrameExtraction,
};
use ferrox::video::{CodecId, StreamInfo, StreamKind};

fn stream(index: usize, kind: StreamKind, codec: CodecId) -> StreamInfo {
    StreamInfo {
        index,
        kind,
        codec,
        width: 64,
        height: 48,
        sample_rate: 0,
        channels: 0,
        codec_private: Vec::new(),
    }
}

#[test]
fn output_path_patterns() {
    assert_eq!(format_output_path("frame_%03d.png", 7), "frame_007.png");
    assert_eq!(format_output_path("f_%d.png", 12), "f_12.png");
    assert_eq!(format_output_path("%5d", 42), "   42");
    assert_eq!(format_output_path("%05d", 42), "00042");
    assert_eq!(format_output_path("%2d", 12345), "12345");
    assert_eq!(format_output_path("%00d", 7), "7");
    assert_eq!(format_output_path("%d_%d", 3), "3_%d");
    assert_eq!(format_output_path("plain.png", 3), "plain.png");
    assert_eq!(format_output_path("abc%", 1), "abc%");
    assert_eq!(format_output_path("%x%d", 4), "%x4");
    assert_eq!(format_output_path("a%x.png", 1), "a%x.png");
    assert_eq!(format_output_path("f_%4d", 42), "f_  42");
    assert_eq!(format_output_path("%99999999999999999999999d", 4), "4");
}

#[test]
fn container_kind_from_extension() {
    assert_eq!(ContainerKind::from_path("a/b.MP4"), Some(ContainerKind::Mp4));
    assert_eq!(ContainerKind::from_path("clip.m4v"), Some(ContainerKind::Mp4));
    assert_eq!(ContainerKind::from_path("clip.webm"), Some(ContainerKind::Mkv));
    assert_eq!(ContainerKind::from_path("clip.mkv"), Some(ContainerKind::Mkv));
    assert_eq!(ContainerKind::from_path("test.ivf"), Some(ContainerKind::Ivf));
    assert_eq!(ContainerKind::from_path("clip.avi"), None);
    assert_eq!(ContainerKind::from_path("clip"), None);
}

fn video_msg(e: Error) -> String {
    match e {
        Error::Video(m) => m,
        other => panic!("unexpected error {other:?}"),
    }
}

fn unsupported_msg(e: Error) -> String {
    match e {
        Error::UnsupportedFormat(m) => m,
        other => panic!("unexpected error {other:?}"),
    }
}

#[test]
fn audio_extraction_decisions() {
    assert_eq!(unsupported_msg(extract_audio("in.mkv", "out").unwrap_err()), "output has no extension");
    assert_eq!(
        unsupported_msg(extract_audio("in.mkv", "out.mp3").unwrap_err()),
        "audio extraction only supports WAV output; got '.mp3'"
    );
    assert_eq!(
        unsupported_msg(extract_audio("in.mkv", "out.WAV").unwrap_err()),
        "audio extraction only supports WAV output; got '.WAV'"
    );
    assert_eq!(
        unsupported_msg(extract_audio("in.avi", "out.wav").unwrap_err()),
        "unrecognised container extension: 'in.avi'"
    );
    assert!(video_msg(extract_audio("in.mp4", "out.wav").unwrap_err()).starts_with("audio extraction from MP4"));
    assert_eq!(
        video_msg(extract_audio("in.ivf", "out.wav").unwrap_err()),
        "IVF containers carry video only — no audio stream."
    );
    assert!(extract_audio("in.webm", "out.wav").is_ok());
}

#[test]
fn mkv_audio_stream_choice() {
    let none = vec![stream(0, StreamKind::Video, CodecId::Vp8)];
    assert_eq!(video_msg(mkv_audio_source(&none).unwrap_err()), "no audio stream in container");
    let pcm = vec![stream(0, StreamKind::Video, CodecId::Vp8), stream(1, StreamKind::Audio, CodecId::Pcm)];
    assert_eq!(mkv_audio_source(&pcm).unwrap(), 1);
    let vorbis = vec![stream(0, StreamKind::Audio, CodecId::Vorbis)];
    assert!(video_msg(mkv_audio_source(&vorbis).unwrap_err()).starts_with("Vorbis audio extraction"));
    let opus = vec![stream(0, StreamKind::Audio, CodecId::Opus)];
    assert_eq!(
        video_msg(mkv_audio_source(&opus).unwrap_err()),
        "audio codec Opus extraction from MKV not yet supported"
    );
}

#[test]
fn pcm_samples_and_format() {
    assert_eq!(pcm_i16_samples(&[0x01, 0x00, 0xff, 0xff, 0x00, 0x80, 0x7f]), vec![1, -1, -32768]);
    let mut s = stream(0, StreamKind::Audio, CodecId::Pcm);
    assert_eq!(pcm_format(&s), (8000, 1));
    s.sample_rate = 48000;
    s.channels = 2;
    assert_eq!(pcm_format(&s), (48000, 2));
}

#[test]
fn decoder_availability() {
    assert!(check_decoder(&CodecId::Vp8).is_ok());
    assert!(video_msg(check_decoder(&CodecId::Vp9).unwrap_err()).contains("`vp9` feature"));
    assert!(video_msg(check_decoder(&CodecId::H264).unwrap_err()).contains("`h264` feature"));
    assert_eq!(video_msg(check_decoder(&CodecId::Aac).unwrap_err()), "no pixel decoder available for AAC");
}

#[test]
fn frame_extraction_run_keeps_the_requested_range() {
    let streams = vec![stream(3, StreamKind::Audio, CodecId::Opus), stream(5, StreamKind::Video, CodecId::Vp8)];
    let mut run = FrameExtraction::begin(&streams, "out_%02d.png", 2, 3).unwrap();
    assert_eq!(run.video_index, 5);
    assert_eq!(run.result.stream_count, 2);
    let mut written = Vec::new();
    let mut decoded = 0;
    while run.wants_more() {
        decoded += 1;
        if decoded == 2 {
            run.on_skipped();
            continue;
        }
        if let Some(p) = run.on_decoded() {
            written.push(p);
        }
    }
    assert_eq!(written, vec!["out_00.png", "out_01.png", "out_02.png"]);
    assert_eq!(run.result.frame_paths, written);
    assert_eq!(run.result.skipped, 1);
}

#[test]
fn frame_extraction_errors() {
    let audio_only = vec![stream(0, StreamKind::Audio, CodecId::Opus)];
    assert_eq!(
        video_msg(FrameExtraction::begin(&audio_only, "x%d", 0, 1).err().unwrap()),
        "no video stream found in container"
    );
    let vp9 = vec![stream(0, StreamKind::Video, CodecId::Vp9)];
    assert!(FrameExtraction::begin(&vp9, "x%d", 0, 1).is_err());
    let r = ExtractResult::default();
    assert!(r.frame_paths.is_empty() && r.skipped == 0 && r.stream_count == 0);
}
