use ferrox::crc::crc32_mpeg;
use ferrox::mux::boxes::{build_ftyp, make_box};
use ferrox::mux::fmp4::{build_fmp4_init, build_fmp4_segment, build_moof_mdat, FMp4Muxer};
use ferrox::mux::mp4::Mp4Muxer;
use ferrox::mux::ogg::{build_opus_head, ogg_crc32, write_ogg_opus, write_ogg_page};
use ferrox::mux::ts::{build_pat, build_pmt, write_ts_packet, write_ts_packet_with_pcr, MpegTsMuxer};
use ferrox::video::{CodecId, EncodedPacket, StreamInfo, StreamKind};

fn video(codec: CodecId) -> StreamInfo {
    StreamInfo {
        index: 0,
        kind: StreamKind::Video,
        codec,
        width: 64,
        height: 48,
        sample_rate: 0,
        channels: 0,
        codec_private: Vec::new(),
    }
}

fn packet(stream_index: usize, pts: u64, data: Vec<u8>, key: bool) -> EncodedPacket {
    EncodedPacket { stream_index, pts, duration: 1, data, is_keyframe: key }
}

fn be32_at(b: &[u8], i: usize) -> u32 {
    u32::from_be_bytes([b[i], b[i + 1], b[i + 2], b[i + 3]])
}

#[test]
fn crc32_mpeg_check_value() {
    assert_eq!(crc32_mpeg(b"123456789"), 0x0376_E6E7);
    assert_eq!(crc32_mpeg(b""), 0xFFFF_FFFF);
}

#[test]
fn ogg_crc_check_value() {
    assert_eq!(ogg_crc32(b"1234", b"56789"), 0x89A1_897F);
}

#[test]
fn box_length_field_matches() {
    let b = make_box(b"free", &[1, 2, 3]);
    assert_eq!(b.len(), 11);
    assert_eq!(be32_at(&b, 0), 11);
    assert_eq!(&b[4..8], b"free");
    let f = build_ftyp();
    assert_eq!(be32_at(&f, 0) as usize, f.len());
    assert_eq!(&f[4..8], b"ftyp");
}

#[test]
fn ts_packets_are_188_bytes() {
    let mut out = Vec::new();
    write_ts_packet(&mut out, 0x100, true, 3, &[1, 2, 3]);
    assert_eq!(out.len(), 188);
    assert_eq!(out[0], 0x47);
    assert_eq!(out[1], 0x41);
    assert_eq!(out[2], 0x00);
    assert_eq!(out[3], 0x13);
    assert_eq!(&out[4..7], &[1, 2, 3]);
    assert!(out[7..].iter().all(|&b| b == 0xFF));
    let pat = build_pat();
    let crc = crc32_mpeg(&pat[1..pat.len() - 4]);
    assert_eq!(be32_at(&pat, pat.len() - 4), crc);
}

#[test]
fn ts_muxer_output_is_packetised() {
    let mut m = MpegTsMuxer::new(&[video(CodecId::H264)], 30, 1).unwrap();
    let mut out = Vec::new();
    m.write_header(&mut out).unwrap();
    m.write_packet(&mut out, &packet(0, 0, vec![0xAB; 500], true)).unwrap();
    m.write_packet(&mut out, &packet(0, 1, vec![0xCD; 10], false)).unwrap();
    m.write_trailer(&mut out).unwrap();
    assert!(!out.is_empty());
    assert_eq!(out.len() % 188, 0);
    assert!(out.chunks(188).all(|p| p[0] == 0x47));
    assert!(m.write_packet(&mut out, &packet(4, 2, vec![1], false)).is_err());
}

#[test]
fn fmp4_header_is_the_init_segment() {
    let streams = [video(CodecId::Av1)];
    let m = FMp4Muxer::new(&streams, 30, 1).unwrap();
    let head = m.write_header();
    assert_eq!(head, build_fmp4_init(&streams));
    assert_eq!(&head[4..8], b"ftyp");
    let ftyp_len = be32_at(&head, 0) as usize;
    assert_eq!(&head[ftyp_len + 4..ftyp_len + 8], b"moov");
    assert_eq!(ftyp_len + be32_at(&head, ftyp_len) as usize, head.len());
}

#[test]
fn fmp4_fragments_after_enough_packets() {
    let streams = [video(CodecId::Av1)];
    let mut m = FMp4Muxer::new(&streams, 30, 1).unwrap();
    let mut emitted = Vec::new();
    for i in 0..30u64 {
        let bytes = m.write_packet(&packet(0, i, vec![i as u8; 4], i == 0)).unwrap();
        emitted.extend_from_slice(&bytes);
    }
    assert!(!emitted.is_empty());
    assert_eq!(&emitted[4..8], b"moof");
    let moof_len = be32_at(&emitted, 0) as usize;
    assert_eq!(&emitted[moof_len + 4..moof_len + 8], b"mdat");
    assert_eq!(emitted.len(), moof_len + 8 + 30 * 4);
    assert!(m.write_packet(&packet(3, 0, vec![1], true)).is_err());
    assert!(m.write_trailer().unwrap().is_empty());
}

#[test]
fn mp4_file_layout() {
    let mut m = Mp4Muxer::new(video(CodecId::Av1), 30, 1).unwrap();
    m.write_packet(&packet(0, 0, vec![1, 2, 3], true)).unwrap();
    m.write_packet(&packet(0, 1, vec![4, 5], false)).unwrap();
    let file = m.finish().unwrap();
    assert_eq!(&file[4..8], b"ftyp");
    let ftyp = be32_at(&file, 0) as usize;
    assert_eq!(&file[ftyp + 4..ftyp + 8], b"moov");
    let moov = be32_at(&file, ftyp) as usize;
    let mdat = ftyp + moov;
    assert_eq!(&file[mdat + 4..mdat + 8], b"mdat");
    assert_eq!(&file[mdat + 8..], &[1, 2, 3, 4, 5]);
    // The sync-sample table names sample 1; the chunk offset points at the
    // packets' data; the time-to-sample table has one run of two samples.
    let stss = file.windows(4).position(|w| w == b"stss").unwrap();
    assert_eq!(be32_at(&file, stss + 8), 1);
    assert_eq!(be32_at(&file, stss + 12), 1);
    let stco = file.windows(4).position(|w| w == b"stco").unwrap();
    assert_eq!(be32_at(&file, stco + 12) as usize, mdat + 8);
    let stts = file.windows(4).position(|w| w == b"stts").unwrap();
    assert_eq!(be32_at(&file, stts + 12), 2);
    assert_eq!(be32_at(&file, stts + 16), 1);
    assert!(Mp4Muxer::new(StreamInfo { kind: StreamKind::Audio, ..video(CodecId::Opus) }, 30, 1).is_err());
}

#[test]
fn ogg_opus_stream_pages() {
    let head = build_opus_head(2, 44_100);
    assert_eq!(&head[0..8], b"OpusHead");
    assert_eq!(head.len(), 19);
    let mut out = Vec::new();
    write_ogg_opus(&mut out, &[vec![1, 2, 3], vec![4]], 48_000, 2, 960).unwrap();
    assert_eq!(&out[0..4], b"OggS");
    let pages = out.windows(4).filter(|w| w == b"OggS").count();
    assert!(pages >= 3);
}

#[test]
fn psi_sections_check_to_zero() {
    let pat = build_pat();
    assert_eq!(crc32_mpeg(&pat[1..]), 0);
    let pmt = build_pmt(&[(0x100, CodecId::H264), (0x101, CodecId::Aac)], 0x100);
    assert_eq!(pmt[1], 0x02);
    assert_eq!(crc32_mpeg(&pmt[1..]), 0);
}

#[test]
fn ogg_pages_check() {
    let mut page = Vec::new();
    write_ogg_page(&mut page, 7, 960, 2, 2, false, true, &[vec![1, 2, 3], vec![9; 300]]);
    // 27 header bytes, lacing [3, 255, 45], then the 303 body bytes.
    assert_eq!(page.len(), 27 + 3 + 303);
    assert_eq!(&page[26..30], &[3, 3, 255, 45]);
    assert_eq!(page[5], 0x04);
    let stored = u32::from_le_bytes([page[22], page[23], page[24], page[25]]);
    let mut zeroed = page.clone();
    zeroed[22..26].fill(0);
    assert_eq!(ogg_crc32(&zeroed, &[]), stored);
}

#[test]
fn pat_section_follows_the_iso_layout() {
    let pat = build_pat();
    assert_eq!(pat.len(), 17);
    assert_eq!(&pat[0..13], &[0x00, 0x00, 0xB0, 0x0D, 0x00, 0x01, 0xC1, 0x00, 0x00, 0x00, 0x01, 0xE0, 0x20]);
    assert_eq!(be32_at(&pat, 13), crc32_mpeg(&pat[1..13]));
    // section_length counts the bytes after it, CRC included.
    let pmt = build_pmt(&[(0x100, CodecId::H264)], 0x100);
    let len = (((pmt[2] & 0x0F) as usize) << 8) | pmt[3] as usize;
    assert_eq!(len, pmt.len() - 4);
}

#[test]
fn pcr_base_is_the_90khz_value() {
    let mut out = Vec::new();
    write_ts_packet_with_pcr(&mut out, 0x100, true, 3, 90000, &[0xAB]);
    assert_eq!(out.len(), 188);
    assert_eq!(&out[0..6], &[0x47, 0x41, 0x00, 0x33, 0x07, 0x10]);
    assert_eq!(&out[6..12], &[0x00, 0x00, 0xAF, 0xC8, 0x7E, 0x00]);
    assert_eq!(out[12], 0xAB);
    assert!(out[13..].iter().all(|&b| b == 0xFF));
}

#[test]
fn trun_data_offset_points_at_the_mdat_payload() {
    let pkts = [packet(0, 0, vec![1, 2, 3], true), packet(0, 1, vec![4, 5], false)];
    // A sequence number spelling "trun" must not be taken for the trun box.
    let out = build_moof_mdat(0x7472_756E, 1, 0, &pkts, 90_000, 30, 1);
    let moof_len = be32_at(&out, 0) as usize;
    assert_eq!(&out[4..8], b"moof");
    assert_eq!(&out[20..24], b"trun");
    assert_eq!(&out[72..76], b"trun");
    assert_eq!(&out[76..80], &[0x00, 0x00, 0x0F, 0x01]);
    assert_eq!(be32_at(&out, 80), 2);
    assert_eq!(be32_at(&out, 84) as usize, moof_len + 8);
    assert_eq!(&out[moof_len + 4..moof_len + 8], b"mdat");
    assert_eq!(&out[moof_len + 8..], &[1, 2, 3, 4, 5]);
}

#[test]
fn segment_carries_its_header_fields() {
    let pkts = [packet(0, 0, vec![9; 4], true), packet(0, 3, vec![8; 2], false)];
    let seg = build_fmp4_segment(7, 2, 90_000, 0x0102_0304_0506_0708, &pkts, 30, 1);
    assert_eq!(seg, build_moof_mdat(7, 2, 0x0102_0304_0506_0708, &pkts, 90_000, 30, 1));
    assert_eq!(be32_at(&seg, 20), 7);
    assert_eq!(be32_at(&seg, 44), 2);
    assert_eq!(&seg[60..68], &[1, 2, 3, 4, 5, 6, 7, 8]);
    // Sample durations: 3 source ticks at 30 fps is 9000 ticks of 90 kHz;
    // the last sample keeps its own duration of one tick, 3000.
    assert_eq!(be32_at(&seg, 88), 9000);
    assert_eq!(be32_at(&seg, 104), 3000);
}

#[test]
fn fmp4_audio_timescale_is_44100() {
    let audio = StreamInfo {
        index: 0,
        kind: StreamKind::Audio,
        codec: CodecId::Aac,
        width: 0,
        height: 0,
        sample_rate: 48000,
        channels: 2,
        codec_private: Vec::new(),
    };
    let init = build_fmp4_init(&[audio]);
    let p = init.windows(4).position(|w| w == b"mdhd").unwrap();
    assert_eq!(init[p + 4], 1);
    assert_eq!(be32_at(&init, p + 24), 44100);
}
