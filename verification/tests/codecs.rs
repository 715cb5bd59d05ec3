use ferrox::codecs::gif::{decode_gif, RawGifFrame, composite_gif_frame, canvas_rgb};
use ferrox::codecs::h264::ensure_annex_b;
use ferrox::codecs::video::{IvfDemuxer, Vp8Decoder};
use ferrox::error::Error;
use ferrox::frame::PixelFormat;
use ferrox::video::{codec_id_from_mkv, codec_id_string, CodecId, Packet, StreamKind};

#[test]
fn annex_b_passthrough_and_conversion() {
    assert_eq!(ensure_annex_b(&[0, 0, 0, 1, 9, 9]), vec![0, 0, 0, 1, 9, 9]);
    assert_eq!(ensure_annex_b(&[0, 0, 1, 7]), vec![0, 0, 1, 7]);
    assert_eq!(
        ensure_annex_b(&[0, 0, 0, 2, 0xAA, 0xBB, 0, 0, 0, 1, 0xCC]),
        vec![0, 0, 0, 1, 0xAA, 0xBB, 0, 0, 0, 1, 0xCC]
    );
    // A unit cut short stops the conversion.
    assert_eq!(ensure_annex_b(&[0, 0, 0, 1 + 1, 0xAA, 0xBB, 0, 0, 0, 9, 1]), vec![0, 0, 0, 1, 0xAA, 0xBB]);
    // Nothing parseable: forwarded as it is.
    assert_eq!(ensure_annex_b(&[5, 6]), vec![5, 6]);
    assert_eq!(ensure_annex_b(&[0, 0, 0, 9, 1]), vec![0, 0, 0, 9, 1]);
}

#[test]
fn mkv_codec_ids() {
    assert_eq!(codec_id_from_mkv("V_VP8").name(), "VP8");
    assert!(matches!(codec_id_from_mkv("V_VP9"), CodecId::Vp9));
    assert!(matches!(codec_id_from_mkv("A_OPUS"), CodecId::Opus));
    assert!(matches!(codec_id_from_mkv("A_VORBIS"), CodecId::Vorbis));
    assert!(matches!(codec_id_from_mkv("A_PCM/FLOAT/IEEE"), CodecId::Pcm));
    match codec_id_from_mkv("V_MPEGH/ISO/HEVC") {
        CodecId::Other(s) => assert_eq!(s, "V_MPEGH/ISO/HEVC"),
        other => panic!("unexpected {other:?}"),
    }
}

#[test]
fn webm_codec_strings() {
    assert_eq!(codec_id_string(&CodecId::Av1), "av1");
    assert_eq!(codec_id_string(&CodecId::H264), "avc");
    assert_eq!(codec_id_string(&CodecId::Pcm), "pcm");
    assert_eq!(codec_id_string(&CodecId::Other("V_Theora".to_string())), "v_theora");
}

fn ivf_header(fourcc: &[u8; 4], w: u16, h: u16) -> Vec<u8> {
    let mut v = b"DKIF".to_vec();
    v.extend_from_slice(&0u16.to_le_bytes());
    v.extend_from_slice(&32u16.to_le_bytes());
    v.extend_from_slice(fourcc);
    v.extend_from_slice(&w.to_le_bytes());
    v.extend_from_slice(&h.to_le_bytes());
    v.extend_from_slice(&30u32.to_le_bytes());
    v.extend_from_slice(&1u32.to_le_bytes());
    v.extend_from_slice(&5u32.to_le_bytes());
    v.extend_from_slice(&0u32.to_le_bytes());
    v
}

#[test]
fn ivf_open_reads_the_header() {
    let d = IvfDemuxer::open(&ivf_header(b"VP80", 320, 240)).unwrap();
    assert_eq!(d.next_offset, 32);
    assert_eq!(d.streams().len(), 1);
    let s = &d.streams()[0];
    assert_eq!((s.index, s.kind, s.width, s.height), (0, StreamKind::Video, 320, 240));
    assert!(matches!(s.codec, CodecId::Vp8));
    assert_eq!(d.framerate, (30, 1));
    let d9 = IvfDemuxer::open(&ivf_header(b"VP90", 1, 1)).unwrap();
    assert!(matches!(d9.streams()[0].codec, CodecId::Vp9));
    let dx = IvfDemuxer::open(&ivf_header(b"AV01", 1, 1)).unwrap();
    match &dx.streams()[0].codec {
        CodecId::Other(s) => assert_eq!(s, "AV01"),
        other => panic!("unexpected {other:?}"),
    }
}

#[test]
fn ivf_open_rejects_bad_headers() {
    let mut bad = ivf_header(b"VP80", 1, 1);
    bad[0] = b'X';
    match IvfDemuxer::open(&bad) {
        Err(Error::Video(m)) => assert_eq!(
            m,
            "ivf: oxideav-vp8: invalid data: ivf: bad signature [58, 4b, 49, 46] (expected [44, 4b, 49, 46])"
        ),
        _ => panic!("expected an error"),
    }
    match IvfDemuxer::open(&[0u8; 10]) {
        Err(Error::Video(m)) => assert_eq!(m, "ivf: oxideav-vp8: invalid data: ivf: header truncated (10 < 32 bytes)"),
        _ => panic!("expected an error"),
    }
}

#[test]
fn ivf_frames_advance_the_offset() {
    let mut d = IvfDemuxer::open(&ivf_header(b"VP80", 2, 2)).unwrap();
    let mut fh = 3u32.to_le_bytes().to_vec();
    fh.extend_from_slice(&77u64.to_le_bytes());
    let (size, pts) = d.frame_header(&fh).unwrap();
    assert_eq!((size, pts), (3, 77));
    let (idx, pkt) = d.take_packet(pts, vec![0x10, 1, 2]);
    assert_eq!(idx, 0);
    assert!(pkt.is_keyframe);
    assert_eq!(pkt.pts, 77);
    assert_eq!(d.next_offset, 32 + 12 + 3);
    let (_, inter) = d.take_packet(78, vec![0x11]);
    assert!(!inter.is_keyframe);
    assert!(matches!(d.frame_header(&[1, 2, 3]), Err(Error::Video(m)) if m == "ivf: oxideav-vp8: invalid data: ivf: frame header truncated (3 < 12 bytes)"));
}

#[test]
fn vp8_rejects_garbage() {
    let mut dec = Vp8Decoder;
    let pkt = Packet { data: vec![1, 2, 3], pts: 0, duration: 0, is_keyframe: false };
    match dec.decode_packet(&pkt) {
        Err(Error::Video(m)) => assert!(m.starts_with("vp8 decode")),
        _ => panic!("garbage decoded"),
    }
}

fn two_frame_gif() -> Vec<u8> {
    let mut out = Vec::new();
    {
        let palette = [0u8, 0, 0, 255, 0, 0, 0, 255, 0];
        let mut enc = gif::Encoder::new(&mut out, 2, 2, &palette).unwrap();
        let mut f1 = gif::Frame::default();
        f1.width = 2;
        f1.height = 2;
        f1.delay = 5;
        f1.buffer = std::borrow::Cow::Owned(vec![1, 1, 1, 1]);
        enc.write_frame(&f1).unwrap();
        let mut f2 = gif::Frame::default();
        f2.width = 1;
        f2.height = 1;
        f2.left = 1;
        f2.top = 1;
        f2.delay = 7;
        f2.buffer = std::borrow::Cow::Owned(vec![2]);
        enc.write_frame(&f2).unwrap();
    }
    out
}

#[test]
fn gif_frames_are_composited_in_order() {
    let frames = decode_gif(&two_frame_gif()).unwrap();
    assert_eq!(frames.len(), 2);
    assert_eq!(frames[0].delay_cs, 5);
    assert_eq!(frames[1].delay_cs, 7);
    assert_eq!(frames[0].frame.format, PixelFormat::Rgb8);
    assert_eq!(frames[0].frame.data, vec![255, 0, 0, 255, 0, 0, 255, 0, 0, 255, 0, 0]);
    assert_eq!(frames[1].frame.data, vec![255, 0, 0, 255, 0, 0, 255, 0, 0, 0, 255, 0]);
}

#[test]
fn gif_rejects_garbage() {
    assert!(matches!(decode_gif(b"not a gif"), Err(Error::UnsupportedFormat(m)) if m.starts_with("gif decode error: ")));
}

#[test]
fn composite_skips_transparent_and_wraps_rows() {
    let mut canvas = vec![0u8; 2 * 2 * 4];
    let f = RawGifFrame {
        delay: 0,
        left: 1,
        top: 0,
        width: 2,
        height: 1,
        buffer: vec![9, 9, 9, 255, 8, 8, 8, 0],
    };
    composite_gif_frame(&mut canvas, 2, &f);
    assert_eq!(canvas, vec![0, 0, 0, 0, 9, 9, 9, 255, 0, 0, 0, 0, 0, 0, 0, 0]);
    let f2 = RawGifFrame { delay: 0, left: 1, top: 0, width: 2, height: 1, buffer: vec![1, 1, 1, 255, 2, 2, 2, 255] };
    composite_gif_frame(&mut canvas, 2, &f2);
    assert_eq!(canvas, vec![0, 0, 0, 0, 1, 1, 1, 255, 2, 2, 2, 255, 0, 0, 0, 0]);
    assert_eq!(canvas_rgb(&canvas), vec![0, 0, 0, 1, 1, 1, 2, 2, 2, 0, 0, 0]);
}

#[test]
fn annex_b_conversion_is_idempotent() {
    for data in [
        vec![0u8, 0, 0, 2, 0xAA, 0xBB, 0, 0, 0, 1, 0xCC],
        vec![0, 0, 1, 7],
        vec![5, 6],
        vec![0, 0, 0, 3, 1, 2, 3],
    ] {
        let once = ensure_annex_b(&data);
        assert_eq!(ensure_annex_b(&once), once);
    }
}
