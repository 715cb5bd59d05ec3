use ferrox::codecs::audio::{Mp3Encoder, Mp3Options, Mp3Quality};
use ferrox::codecs::av1::Av1Encoder;
use ferrox::codecs::containers::{
    channel_config_count, codec_id_from_mp4_media_type, stream_from_mkv_track, track_position, ChannelLayout,
    MkvTrackKind, Mp4Cursor, Mp4MediaType,
};
use ferrox::codecs::gif::{frame_delay, gif_frame_rgba, palette_size, GifEncodeOptions, GifFrame, GifRepeat};
use ferrox::codecs::h264::{frame_from_h264_output, H264Decoder};
use ferrox::codecs::image::{decode_image, JpegDecoder, JpegEncoder, PngDecoder, PngEncoder};
use ferrox::codecs::vp9::{extract_planes, frame_from_picture, pixel_format_for, ChromaLayout};
use ferrox::error::Error;
use ferrox::frame::{yuv420_plane_ends, Frame, PixelFormat};
use image::ImageEncoder;
use ferrox::mux::webm::{webm_packet, webm_tracks, Ratio, WebmParams};
use ferrox::video::{CodecId, EncodedPacket, Packet, StreamInfo, StreamKind, VideoFrame};

fn packet(data: Vec<u8>) -> Packet {
    Packet { data, pts: 7, duration: 3, is_keyframe: true }
}

fn video_msg(e: Error) -> String {
    match e {
        Error::Video(m) => m,
        other => panic!("expected a video error, got {other:?}"),
    }
}

#[test]
fn png_round_trip_keeps_pixels() {
    let frame = Frame::new(2, 1, PixelFormat::Rgb8, vec![10, 20, 30, 40, 50, 60]);
    let bytes = PngEncoder.encode(&frame).unwrap();
    assert_eq!(&bytes[1..4], b"PNG");
    let back = PngDecoder.decode(&bytes).unwrap();
    assert_eq!((back.width, back.height, back.format), (2, 1, PixelFormat::Rgb8));
    assert_eq!(back.data, frame.data);
}

#[test]
fn png_round_trip_gray_alpha() {
    let frame = Frame::new(1, 2, PixelFormat::GrayA8, vec![1, 2, 3, 4]);
    let back = PngDecoder.decode(&PngEncoder.encode(&frame).unwrap()).unwrap();
    assert_eq!(back.format, PixelFormat::GrayA8);
    assert_eq!(back.data, vec![1, 2, 3, 4]);
}

#[test]
fn png_refuses_planar_frames() {
    let frame = Frame::new(2, 2, PixelFormat::Yuv420p, vec![0; 6]);
    assert!(matches!(PngEncoder.encode(&frame), Err(Error::UnsupportedPixelFormat)));
    assert!(matches!(PngDecoder.decode(b"not a png"), Err(Error::Image(_))));
}

#[test]
fn jpeg_gray_round_trip_keeps_size() {
    let frame = Frame::new(8, 8, PixelFormat::Gray8, vec![128; 64]);
    let enc = JpegEncoder::default();
    assert_eq!(enc.quality, 85);
    let bytes = enc.encode(&frame).unwrap();
    assert_eq!(&bytes[0..2], &[0xFF, 0xD8]);
    let back = JpegDecoder.decode(&bytes).unwrap();
    assert_eq!((back.width, back.height, back.format), (8, 8, PixelFormat::Gray8));
    assert_eq!(back.data.len(), 64);
    let rgba = Frame::new(1, 1, PixelFormat::Rgba8, vec![0, 0, 0, 0]);
    assert!(matches!(enc.encode(&rgba), Err(Error::UnsupportedPixelFormat)));
}

#[test]
fn mkv_tracks_become_streams() {
    let s = stream_from_mkv_track(2, MkvTrackKind::Video, "V_VP8", Some((640, 480)), None, None);
    assert_eq!((s.index, s.kind), (2, StreamKind::Video));
    assert!(matches!(s.codec, CodecId::Vp8));
    assert_eq!((s.width, s.height, s.sample_rate, s.channels), (640, 480, 0, 0));
    let a = stream_from_mkv_track(1, MkvTrackKind::Audio, "A_WEIRD", None, Some((48000, 2)), Some(vec![1, 2]));
    assert!(matches!(&a.codec, CodecId::Other(n) if n == "A_WEIRD"));
    assert_eq!((a.sample_rate, a.channels, a.codec_private.clone()), (48000, 2, vec![1, 2]));
    assert_eq!(track_position(&[5, 9, 9], 9), Some(1));
    assert_eq!(track_position(&[5, 9], 4), None);
}

#[test]
fn mp4_codecs_and_channels() {
    assert!(matches!(codec_id_from_mp4_media_type(Mp4MediaType::H264), CodecId::H264));
    assert!(matches!(codec_id_from_mp4_media_type(Mp4MediaType::Vp9), CodecId::Vp9));
    assert!(matches!(codec_id_from_mp4_media_type(Mp4MediaType::H265), CodecId::Other(n) if n == "H265"));
    assert!(matches!(codec_id_from_mp4_media_type(Mp4MediaType::Ttxt), CodecId::Other(n) if n == "TTXT"));
    assert_eq!(channel_config_count(ChannelLayout::Mono), 1);
    assert_eq!(channel_config_count(ChannelLayout::FiveOne), 6);
    assert_eq!(channel_config_count(ChannelLayout::SevenOne), 8);
}

#[test]
fn mp4_cursor_round_robin_skips_exhausted_tracks() {
    let mut c = Mp4Cursor::new(&[(1, 2), (2, 1)]);
    // First pass: track 1 sample 1, then track 2 sample 1.
    assert_eq!(c.attempt(0), Some((0, 1, 1)));
    assert_eq!(c.attempt(0), Some((1, 2, 1)));
    // Track 1 has one more sample; track 2 is exhausted.
    assert_eq!(c.attempt(0), Some((0, 1, 2)));
    assert_eq!(c.attempt(0), None);
    assert_eq!(c.attempt(1), None);
}

#[test]
fn gif_encode_helpers() {
    let d = GifEncodeOptions::default();
    assert_eq!((d.palette_size, d.repeat, d.default_delay_cs), (256, GifRepeat::Infinite, 10));
    assert_eq!(palette_size(&GifEncodeOptions { palette_size: 1, ..d }), 2);
    assert_eq!(palette_size(&GifEncodeOptions { palette_size: 1000, ..d }), 256);
    assert_eq!(palette_size(&GifEncodeOptions { palette_size: 16, ..d }), 16);
    let still = GifFrame { frame: Frame::new(1, 1, PixelFormat::Rgb8, vec![1, 2, 3]), delay_cs: 0 };
    assert_eq!(frame_delay(&still, &d), 10);
    let timed = GifFrame { frame: Frame::new(1, 1, PixelFormat::Rgb8, vec![1, 2, 3]), delay_cs: 4 };
    assert_eq!(frame_delay(&timed, &d), 4);
    assert_eq!(gif_frame_rgba(&still.frame).unwrap(), vec![1, 2, 3, 255]);
    let rgba = Frame::new(1, 1, PixelFormat::Rgba8, vec![9, 8, 7, 6]);
    assert_eq!(gif_frame_rgba(&rgba).unwrap(), vec![9, 8, 7, 6]);
    let gray = Frame::new(1, 1, PixelFormat::Gray8, vec![9]);
    match gif_frame_rgba(&gray) {
        Err(Error::Filter(m)) => assert_eq!(m, "encode_gif: frame must be Rgb8/Rgba8, got Gray8"),
        other => panic!("unexpected {other:?}"),
    }
}

#[test]
fn vp9_layouts() {
    assert_eq!(pixel_format_for(8, ChromaLayout::I420).unwrap(), PixelFormat::Yuv420p);
    assert_eq!(pixel_format_for(10, ChromaLayout::I420).unwrap(), PixelFormat::Yuv420p10);
    assert_eq!(pixel_format_for(12, ChromaLayout::I420).unwrap(), PixelFormat::Yuv420p12);
    assert_eq!(pixel_format_for(8, ChromaLayout::I422).unwrap(), PixelFormat::Yuv422p);
    assert_eq!(pixel_format_for(8, ChromaLayout::I444).unwrap(), PixelFormat::Yuv444p);
    assert_eq!(
        video_msg(pixel_format_for(10, ChromaLayout::I444).unwrap_err()),
        "VP9: unsupported 10-bit I444 — only 8/10/12-bit I420, 8-bit I422/I444 are supported"
    );
    assert_eq!(
        video_msg(pixel_format_for(8, ChromaLayout::I400).unwrap_err()),
        "VP9: unsupported 8-bit I400 — only 8/10/12-bit I420, 8-bit I422/I444 are supported"
    );
}

#[test]
fn vp9_planes_drop_row_padding() {
    // A 3x2 picture, 4:2:0: luma rows of 3 bytes in a stride of 4, chroma
    // 2x1 in a stride of 3.
    let y = [1, 2, 3, 0, 4, 5, 6];
    let u = [7, 8, 0];
    let v = [9, 10];
    let data = extract_planes(&y, &u, &v, (4, 3, 2), 3, 2, ChromaLayout::I420, 8);
    assert_eq!(data, vec![1, 2, 3, 4, 5, 6, 7, 8, 9, 10]);
    // As long as a 3x2 4:2:0 picture is: 6 luma bytes and two 2x1 chroma planes.
    assert_eq!(data.len(), 3 * 2 + 2 * (2 * 1));
    // Luma only: the chroma planes are not read.
    let mono = extract_planes(&y, &[], &[], (4, 0, 0), 3, 2, ChromaLayout::I400, 8);
    assert_eq!(mono, vec![1, 2, 3, 4, 5, 6]);
    // 10-bit samples take two bytes each.
    let y16 = [1, 0, 2, 0, 9, 9, 3, 0, 4, 0];
    let u16s = [5, 0];
    let v16s = [6, 0];
    let deep = extract_planes(&y16, &u16s, &v16s, (6, 2, 2), 2, 2, ChromaLayout::I420, 10);
    assert_eq!(deep, vec![1, 0, 2, 0, 3, 0, 4, 0, 5, 0, 6, 0]);
    assert_eq!(deep.len(), 2 * (2 * 2 + 2 * 1));
    // 4:4:4 keeps full-resolution chroma.
    let full = extract_planes(&[1, 2], &[3, 4], &[5, 6], (2, 2, 2), 2, 1, ChromaLayout::I444, 8);
    assert_eq!(full, vec![1, 2, 3, 4, 5, 6]);
}

#[test]
fn vp9_picture_becomes_a_frame() {
    let y = [1, 2, 3, 4];
    let vf = frame_from_picture(&y, &[5], &[6], (2, 1, 1), 2, 2, ChromaLayout::I420, 8, &packet(vec![])).unwrap();
    assert_eq!((vf.frame.width, vf.frame.height, vf.frame.format), (2, 2, PixelFormat::Yuv420p));
    assert_eq!(vf.frame.data, vec![1, 2, 3, 4, 5, 6]);
    assert_eq!((vf.pts, vf.duration, vf.is_keyframe), (7, 3, true));
    assert!(frame_from_picture(&y, &[5], &[6], (2, 1, 1), 2, 2, ChromaLayout::I420, 9, &packet(vec![])).is_err());
}

#[test]
fn h264_outputs_map_to_results() {
    let p = packet(vec![0, 0, 0, 1, 0x67]);
    let vf = frame_from_h264_output(Ok(Some((1, 1, vec![1, 2, 3]))), &p).unwrap();
    assert_eq!((vf.frame.width, vf.frame.height, vf.frame.format), (1, 1, PixelFormat::Rgb8));
    assert_eq!(vf.frame.data, vec![1, 2, 3]);
    assert_eq!(
        video_msg(frame_from_h264_output(Ok(None), &p).unwrap_err()),
        "openh264: no frame produced for this NAL unit (SPS/PPS/buffered)"
    );
    assert_eq!(
        video_msg(frame_from_h264_output(Err("bad".to_string()), &p).unwrap_err()),
        "openh264 decode: bad"
    );
}

#[test]
fn h264_decoder_refuses_a_lone_header_byte() {
    let mut dec = H264Decoder::new().unwrap();
    let out = dec.decode_packet(&packet(vec![0, 0, 0, 1, 0x09, 0x10]));
    assert!(out.is_err());
}

#[test]
fn webm_tracks_and_packets() {
    let video = StreamInfo {
        index: 0,
        kind: StreamKind::Video,
        codec: CodecId::Other("AV1X".to_string()),
        width: 320,
        height: 240,
        sample_rate: 0,
        channels: 0,
        codec_private: vec![],
    };
    let audio = StreamInfo { index: 1, kind: StreamKind::Audio, codec: CodecId::Opus, width: 0, height: 0,
        sample_rate: 48000, channels: 2, codec_private: vec![] };
    let tracks = webm_tracks(&[video, audio], 30, 1);
    assert_eq!(tracks.len(), 2);
    assert_eq!(tracks[0].codec, "av1x");
    assert_eq!(tracks[0].time_base, Ratio { num: 1, den: 30 });
    assert_eq!(
        tracks[0].params,
        WebmParams::Video { width: 320, height: 240, frame_rate: Ratio { num: 30, den: 1 } }
    );
    assert_eq!(tracks[1].codec, "opus");
    assert_eq!(tracks[1].params, WebmParams::Audio { sample_rate: 48000, channels: 2 });
    let p = EncodedPacket { stream_index: 1, pts: 12, duration: 1, data: vec![4, 5], is_keyframe: false };
    let w = webm_packet(&p, 30, 1);
    assert_eq!((w.stream_index, w.pts, w.dts, w.duration, w.keyframe), (1, 12, 12, 1, false));
    assert_eq!(w.data, vec![4, 5]);
    assert_eq!(w.time_base, Ratio { num: 1, den: 30 });
}

#[test]
fn av1_encodes_a_small_picture() {
    let mut enc = Av1Encoder::new(16, 16, 10, 100, 30, 1).unwrap();
    assert_eq!(enc.codec_name(), "AV1");
    let frame = Frame::new(16, 16, PixelFormat::Yuv420p, vec![128; 16 * 16 + 2 * 8 * 8]);
    let mut packets = enc.encode(&VideoFrame::new(frame, 0, 1, true)).unwrap();
    packets.extend(enc.flush().unwrap());
    assert!(!packets.is_empty());
    assert!(packets[0].is_keyframe);
    assert!(packets.iter().all(|p| p.stream_index == 0 && p.duration == 1 && !p.data.is_empty()));
    let rgb = Frame::new(1, 1, PixelFormat::Rgb8, vec![0, 0, 0]);
    assert!(matches!(enc.encode(&VideoFrame::new(rgb, 1, 1, false)), Err(Error::Video(_))));
}

#[test]
fn mp3_encoder_feeds_and_flushes() {
    let enc = Mp3Encoder::new();
    match enc.encode_pcm(&[], 44100, 2) {
        Err(Error::Audio(m)) => assert_eq!(m, "cannot encode empty audio frame to MP3"),
        other => panic!("unexpected {other:?}"),
    }
    let tone: Vec<i16> = (0..4608).map(|i| ((i % 64) as i16 - 32) * 200).collect();
    let mono = enc.encode_pcm(&tone, 44100, 1).unwrap();
    assert!(mono.len() > 100);
    // An MP3 frame starts with an 11-bit sync word.
    assert_eq!(mono[0], 0xFF);
    assert_eq!(mono[1] & 0xE0, 0xE0);
    let stereo = enc.encode_pcm(&tone, 44100, 2).unwrap();
    assert!(!stereo.is_empty());
    // libmp3lame takes one or two channels: three are refused at setup.
    match enc.encode_pcm(&tone, 48000, 3) {
        Err(Error::Audio(m)) => assert!(m.starts_with("lame set_num_channels: "), "{m}"),
        other => panic!("unexpected {other:?}"),
    }
}

#[test]
fn mp3_encoder_setup_and_modes() {
    let tone: Vec<i16> = (0..2304).map(|i| ((i % 32) as i16 - 16) * 300).collect();
    // A sample rate of zero is refused by libmp3lame's rate setter.
    match Mp3Encoder::new().encode_pcm(&tone, 0, 2) {
        Err(Error::Audio(m)) => assert!(m.starts_with("lame set_sample_rate: "), "{m}"),
        other => panic!("unexpected {other:?}"),
    }
    // No channels at all is refused by the channel setter.
    match Mp3Encoder::new().encode_pcm(&tone, 44100, 0) {
        Err(Error::Audio(m)) => assert!(m.starts_with("lame set_num_channels: "), "{m}"),
        other => panic!("unexpected {other:?}"),
    }
    // Variable bitrate at each quality preset.
    for quality in [Mp3Quality::Best, Mp3Quality::Good, Mp3Quality::Fast] {
        let enc = Mp3Encoder { opts: Mp3Options { bitrate_kbps: None, quality } };
        let out = enc.encode_pcm(&tone, 22050, 1).unwrap();
        assert_eq!(out[0], 0xFF);
    }
    // 258 channels pass the setter as 2 (a byte) and are mixed down to two.
    let wide: Vec<i16> = (0..258 * 8).map(|i| (i % 100) as i16).collect();
    assert!(!Mp3Encoder::new().encode_pcm(&wide, 44100, 258).unwrap().is_empty());
}

#[test]
fn mp3_feed_by_channel_count() {
    let s = [1i16, 2, 3, 4, 5, 6];
    assert_eq!(Mp3Encoder::pcm_input(&s, 1), (s.to_vec(), None));
    assert_eq!(Mp3Encoder::pcm_input(&s, 2), (vec![1, 3, 5], Some(vec![2, 4, 6])));
    // Three channels: the left half is the first channel, the right half
    // the average of the other two.
    assert_eq!(Mp3Encoder::pcm_input(&s, 3), (vec![1, 4], Some(vec![2, 5])));
}

#[test]
fn image_assets_are_told_apart_by_signature() {
    let png = PngEncoder.encode(&Frame::new(1, 1, PixelFormat::Rgba8, vec![1, 2, 3, 4])).unwrap();
    let f = decode_image(&png).unwrap();
    assert_eq!((f.format, f.data.clone()), (PixelFormat::Rgba8, vec![1, 2, 3, 4]));
    let jpg = JpegEncoder { quality: 90 }.encode(&Frame::new(8, 8, PixelFormat::Rgb8, vec![200; 192])).unwrap();
    let j = decode_image(&jpg).unwrap();
    assert_eq!((j.width, j.height, j.format), (8, 8, PixelFormat::Rgb8));
    match decode_image(b"GIF89a") {
        Err(Error::UnsupportedFormat(m)) => assert_eq!(m, "image asset must be PNG or JPEG"),
        other => panic!("unexpected {other:?}"),
    }
    // A PNG signature on bytes that are no PNG is the decoder's error.
    assert!(matches!(decode_image(&[0x89, b'P', b'N', b'G', 0, 0]), Err(Error::Image(_))));
}

#[test]
fn av1_refuses_frames_below_sixteen_pixels() {
    match Av1Encoder::new(8, 16, 10, 100, 30, 1) {
        Err(Error::Video(m)) => assert!(m.starts_with("rav1e config error: ")),
        _ => panic!("expected a configuration error"),
    }
    assert!(Av1Encoder::new(16, 16, 10, 100, 0, 1).is_err());
}

#[test]
fn av1_accepts_exactly_the_validated_ranges() {
    assert!(Av1Encoder::new(16, 65535, 10, 100, 30, 1).is_ok());
    assert!(Av1Encoder::new(65536, 16, 10, 100, 30, 1).is_err());
    assert!(Av1Encoder::new(16, 16, 10, 100, 30, 1 << 32).is_err());
    assert!(Av1Encoder::new(16, 16, 10, 100, u32::MAX as u64, u32::MAX as u64).is_ok());
    // The quantizer is not validated.
    assert!(Av1Encoder::new(16, 16, 10, 1000, 30, 1).is_ok());
}

#[test]
fn png_with_16_bit_samples_is_refused() {
    let mut bytes = Vec::new();
    image::codecs::png::PngEncoder::new(&mut bytes)
        .write_image(&[0u8, 1, 2, 3], 2, 1, image::ExtendedColorType::L16)
        .unwrap();
    match PngDecoder.decode(&bytes) {
        Err(Error::Image(m)) => assert_eq!(m, "PNG layouts wider than 8 bits per channel are not supported"),
        _ => panic!("expected an image error"),
    }
}

#[test]
fn yuv420_plane_ends_and_refusal() {
    let f = Frame::new(3, 3, PixelFormat::Yuv420p, vec![0; 9 + 2 * 4]);
    assert_eq!(yuv420_plane_ends(&f).unwrap(), (9, 13));
    let g = Frame::new(1, 1, PixelFormat::Rgb8, vec![0; 3]);
    assert!(matches!(yuv420_plane_ends(&g), Err(Error::Filter(m)) if m == "yuv420p_to_rgb8 expects Yuv420p input"));
}
