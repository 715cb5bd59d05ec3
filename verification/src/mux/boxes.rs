//! ISO-BMFF box byte-builders shared by the fragmented and progressive MP4
//! muxers. Every builder's result is stated byte-for-byte by a spec function
//! of the same name with a `_spec` suffix.

use vstd::prelude::*;

use crate::bytes::{append, byte_len, append_zeros, be32, be32_spec, be64, be64_spec, zeros};
use super::fourcc::{
    AV01, AV1C, AVC1, AVCC, ESDS, FTYP, HDLR, ISO5, ISO6, MDHD, MP41, MP4A, MVHD, TKHD,
};

verus! {

// ── generic boxes ────────────────────────────────────────────────────────────

/// A box: 4-byte big-endian total length, the fourcc, then the payload.
pub open spec fn box_spec(fourcc: Seq<u8>, payload: Seq<u8>) -> Seq<u8> {
    be32_spec((payload.len() + 8) as u32) + fourcc + payload
}

/// A full box: a box whose payload starts with a version byte and 24 flag bits.
pub open spec fn full_box_spec(fourcc: Seq<u8>, version: u8, flags: u32, payload: Seq<u8>) -> Seq<u8> {
    box_spec(fourcc, seq![version] + be32_spec(flags & 0x00FF_FFFFu32).subrange(1, 4) + payload)
}

/// The last two bytes of the big-endian encoding (a 16-bit field).
pub open spec fn low16_spec(v: u32) -> Seq<u8> {
    be32_spec(v).subrange(2, 4)
}

/// The 3×3 unity transformation matrix (16.16 / 2.30 fixed point).
pub open spec fn unity_matrix_spec() -> Seq<u8> {
    be32_spec(0x0001_0000) + be32_spec(0) + be32_spec(0) + be32_spec(0) + be32_spec(0x0001_0000)
        + be32_spec(0) + be32_spec(0) + be32_spec(0) + be32_spec(0x4000_0000)
}

/// Build a generic MP4 box: 4-byte length + 4-byte type + payload.
pub fn make_box(fourcc: &[u8; 4], payload: &[u8]) -> (r: Vec<u8>)
    ensures
        r@ == box_spec(fourcc@, payload@),
{
    let total = 8 + byte_len(payload);
    let mut b: Vec<u8> = Vec::new();
    append(&mut b, &be32(total as u32));
    append(&mut b, fourcc);
    append(&mut b, payload);
    b
}

/// Make a full box (version + flags prefix).
pub fn make_full_box(fourcc: &[u8; 4], version: u8, flags: u32, payload: &[u8]) -> (r: Vec<u8>)
    ensures
        r@ == full_box_spec(fourcc@, version, flags, payload@),
{
    let mut p: Vec<u8> = Vec::new();
    p.push(version);
    let f = be32(flags & 0x00FF_FFFFu32);
    p.push(f[1]);
    p.push(f[2]);
    p.push(f[3]);
    append(&mut p, payload);
    assert(p@ =~= seq![version] + be32_spec(flags & 0x00FF_FFFFu32).subrange(1, 4) + payload@);
    make_box(fourcc, p.as_slice())
}

/// Append the two low bytes of `be32(v)` (a big-endian u16 field).
fn append_low16(out: &mut Vec<u8>, v: u32)
    ensures
        final(out)@ == old(out)@ + low16_spec(v),
{
    let b = be32(v);
    out.push(b[2]);
    out.push(b[3]);
    assert(final(out)@ =~= old(out)@ + low16_spec(v));
}

fn append_unity_matrix(p: &mut Vec<u8>)
    ensures
        final(p)@ == old(p)@ + unity_matrix_spec(),
{
    append(p, &be32(0x0001_0000));
    append(p, &be32(0));
    append(p, &be32(0));
    append(p, &be32(0));
    append(p, &be32(0x0001_0000));
    append(p, &be32(0));
    append(p, &be32(0));
    append(p, &be32(0));
    append(p, &be32(0x4000_0000));
    assert(final(p)@ =~= old(p)@ + unity_matrix_spec());
}

// ── ftyp / mvhd / tkhd / mdhd / hdlr ─────────────────────────────────────────

pub open spec fn ftyp_spec() -> Seq<u8> {
    box_spec(FTYP@, ISO5@ + be32_spec(512) + ISO5@ + ISO6@ + MP41@)
}

pub fn build_ftyp() -> (r: Vec<u8>)
    ensures
        r@ == ftyp_spec(),
{
    let mut p: Vec<u8> = Vec::new();
    append(&mut p, &ISO5);  // major brand
    append(&mut p, &be32(512));  // minor version
    append(&mut p, &ISO5);
    append(&mut p, &ISO6);
    append(&mut p, &MP41);
    assert(p@ =~= ISO5@ + be32_spec(512) + ISO5@ + ISO6@ + MP41@);
    make_box(&FTYP, p.as_slice())
}

pub open spec fn mvhd_payload_spec(timescale: u32, duration: u64) -> Seq<u8> {
    be64_spec(0) + be64_spec(0) + be32_spec(timescale) + be64_spec(duration) + be32_spec(0x0001_0000)
        + seq![0x01u8, 0x00u8] + zeros(10) + unity_matrix_spec() + zeros(24) + be32_spec(0xFFFF_FFFE)
}

pub open spec fn mvhd_spec(timescale: u32, duration: u64) -> Seq<u8> {
    full_box_spec(MVHD@, 1, 0, mvhd_payload_spec(timescale, duration))
}

pub fn build_mvhd(timescale: u32, duration: u64) -> (r: Vec<u8>)
    ensures
        r@ == mvhd_spec(timescale, duration),
{
    let mut p: Vec<u8> = Vec::new();
    append(&mut p, &be64(0u64));  // creation_time
    append(&mut p, &be64(0u64));  // modification_time
    append(&mut p, &be32(timescale));
    append(&mut p, &be64(duration));
    append(&mut p, &be32(0x0001_0000));  // rate = 1.0
    p.push(0x01);  // volume = 1.0
    p.push(0x00);
    append_zeros(&mut p, 10);  // reserved
    append_unity_matrix(&mut p);
    append_zeros(&mut p, 24);  // pre-defined
    append(&mut p, &be32(0xFFFF_FFFE));  // next_track_id placeholder
    assert(p@ =~= mvhd_payload_spec(timescale, duration));
    make_full_box(&MVHD, 1, 0, p.as_slice())
}

pub open spec fn tkhd_payload_spec(track_id: u32, duration: u64, width: u32, height: u32, is_audio: bool) -> Seq<u8> {
    be64_spec(0) + be64_spec(0) + be32_spec(track_id) + be32_spec(0) + be64_spec(duration) + zeros(8)
        + zeros(2) + zeros(2) + (if is_audio { seq![0x01u8, 0x00u8] } else { zeros(2) }) + zeros(2)
        + unity_matrix_spec() + (if is_audio {
        zeros(8)
    } else {
        be32_spec(width << 16u32) + be32_spec(height << 16u32)
    })
}

pub open spec fn tkhd_spec(track_id: u32, duration: u64, width: u32, height: u32, is_audio: bool) -> Seq<u8> {
    full_box_spec(TKHD@, 1, 3, tkhd_payload_spec(track_id, duration, width, height, is_audio))
}

pub fn build_tkhd(track_id: u32, duration: u64, width: u32, height: u32, is_audio: bool) -> (r: Vec<u8>)
    ensures
        r@ == tkhd_spec(track_id, duration, width, height, is_audio),
{
    let mut p: Vec<u8> = Vec::new();
    append(&mut p, &be64(0u64));  // creation_time
    append(&mut p, &be64(0u64));  // modification_time
    append(&mut p, &be32(track_id));
    append(&mut p, &be32(0));  // reserved
    append(&mut p, &be64(duration));
    append_zeros(&mut p, 8);  // reserved
    append_zeros(&mut p, 2);  // layer
    append_zeros(&mut p, 2);  // alternate_group
    if is_audio {
        p.push(0x01);
        p.push(0x00);
    } else {
        append_zeros(&mut p, 2);
    }
    append_zeros(&mut p, 2);  // reserved
    append_unity_matrix(&mut p);
    // width/height as 16.16 fixed point (0 for audio)
    if is_audio {
        append_zeros(&mut p, 8);
    } else {
        append(&mut p, &be32(width << 16u32));
        append(&mut p, &be32(height << 16u32));
    }
    assert(p@ =~= tkhd_payload_spec(track_id, duration, width, height, is_audio));
    // flags=3: track_enabled | track_in_movie
    make_full_box(&TKHD, 1, 3, p.as_slice())
}

pub open spec fn mdhd_spec(timescale: u32, duration: u64) -> Seq<u8> {
    full_box_spec(
        MDHD@,
        1,
        0,
        be64_spec(0) + be64_spec(0) + be32_spec(timescale) + be64_spec(duration) + seq![0x55u8, 0xC4u8]
            + be32_spec(0),
    )
}

pub fn build_mdhd(timescale: u32, duration: u64) -> (r: Vec<u8>)
    ensures
        r@ == mdhd_spec(timescale, duration),
{
    let mut p: Vec<u8> = Vec::new();
    append(&mut p, &be64(0u64));  // creation_time
    append(&mut p, &be64(0u64));  // modification_time
    append(&mut p, &be32(timescale));
    append(&mut p, &be64(duration));
    p.push(0x55);  // language = 'und' (ISO 639-2/T)
    p.push(0xC4);
    append(&mut p, &be32(0));  // pre_defined
    assert(p@ =~= be64_spec(0) + be64_spec(0) + be32_spec(timescale) + be64_spec(duration) + seq![
        0x55u8,
        0xC4u8,
    ] + be32_spec(0));
    make_full_box(&MDHD, 1, 0, p.as_slice())
}

pub open spec fn hdlr_spec(handler: Seq<u8>, name: Seq<u8>) -> Seq<u8> {
    full_box_spec(HDLR@, 0, 0, be32_spec(0) + handler + zeros(12) + name + seq![0u8])
}

pub fn build_hdlr(handler: &[u8; 4], name: &[u8]) -> (r: Vec<u8>)
    ensures
        r@ == hdlr_spec(handler@, name@),
{
    let mut p: Vec<u8> = Vec::new();
    append(&mut p, &be32(0));  // pre_defined
    append(&mut p, handler);
    append_zeros(&mut p, 12);  // reserved
    append(&mut p, name);
    p.push(0);  // null terminator
    assert(p@ =~= be32_spec(0) + handler@ + zeros(12) + name@ + seq![0u8]);
    make_full_box(&HDLR, 0, 0, p.as_slice())
}

// ── sample entries ───────────────────────────────────────────────────────────

/// The visual sample entry fields shared by `avc1` and `av01`.
pub open spec fn visual_entry_head_spec(width: u32, height: u32) -> Seq<u8> {
    zeros(6) + low16_spec(1) + zeros(16) + low16_spec(width) + low16_spec(height) + be32_spec(
        0x0048_0000,
    ) + be32_spec(0x0048_0000) + be32_spec(0) + low16_spec(1) + zeros(32) + seq![0x00u8, 0x18u8]
        + seq![0xFFu8, 0xFFu8]
}

fn append_visual_entry_head(p: &mut Vec<u8>, width: u32, height: u32)
    ensures
        final(p)@ == old(p)@ + visual_entry_head_spec(width, height),
{
    append_zeros(p, 6);  // reserved
    append_low16(p, 1);  // data_reference_index = 1
    append_zeros(p, 16);  // pre_defined + reserved
    append_low16(p, width);
    append_low16(p, height);
    append(p, &be32(0x0048_0000));  // horizresolution = 72dpi
    append(p, &be32(0x0048_0000));  // vertresolution
    append(p, &be32(0));  // reserved
    append_low16(p, 1);  // frame_count = 1
    append_zeros(p, 32);  // compressorname
    p.push(0x00);  // depth = 24
    p.push(0x18);
    p.push(0xFF);  // pre_defined = -1
    p.push(0xFF);
    assert(final(p)@ =~= old(p)@ + visual_entry_head_spec(width, height));
}

pub open spec fn avc1_spec(width: u32, height: u32, avcc: Seq<u8>) -> Seq<u8> {
    box_spec(AVC1@, visual_entry_head_spec(width, height) + box_spec(AVCC@, avcc))
}

pub fn build_avc1(width: u32, height: u32, avcc: &[u8]) -> (r: Vec<u8>)
    ensures
        r@ == avc1_spec(width, height, avcc@),
{
    let mut p: Vec<u8> = Vec::new();
    append_visual_entry_head(&mut p, width, height);
    let avcc_box = make_box(&AVCC, avcc);
    append(&mut p, avcc_box.as_slice());
    make_box(&AVC1, p.as_slice())
}

/// The placeholder `av1C` configuration record.
pub open spec fn av1c_record_spec() -> Seq<u8> {
    seq![0x81u8, 0x04u8, 0x0Cu8, 0x00u8]
}

pub open spec fn av01_spec(width: u32, height: u32) -> Seq<u8> {
    box_spec(AV01@, visual_entry_head_spec(width, height) + box_spec(AV1C@, av1c_record_spec()))
}

pub fn build_av01(width: u32, height: u32) -> (r: Vec<u8>)
    ensures
        r@ == av01_spec(width, height),
{
    let mut p: Vec<u8> = Vec::new();
    append_visual_entry_head(&mut p, width, height);
    // Minimal av1C (sequence header placeholder — real encoders write this)
    let rec: [u8; 4] = [0x81, 0x04, 0x0C, 0x00];
    let av1c = make_box(&AV1C, &rec);
    append(&mut p, av1c.as_slice());
    make_box(&AV01, p.as_slice())
}

/// AAC sampling-frequency index of `sample_rate` (44.1 kHz when unlisted).
pub open spec fn aac_rate_index_spec(sample_rate: u32) -> u8 {
    if sample_rate == 96000 {
        0
    } else if sample_rate == 88200 {
        1
    } else if sample_rate == 64000 {
        2
    } else if sample_rate == 48000 {
        3
    } else if sample_rate == 44100 {
        4
    } else if sample_rate == 32000 {
        5
    } else if sample_rate == 24000 {
        6
    } else if sample_rate == 22050 {
        7
    } else if sample_rate == 16000 {
        8
    } else if sample_rate == 12000 {
        9
    } else if sample_rate == 11025 {
        10
    } else if sample_rate == 8000 {
        11
    } else {
        4
    }
}

fn aac_rate_index(sample_rate: u32) -> (r: u8)
    ensures
        r == aac_rate_index_spec(sample_rate),
        r <= 11,
{
    match sample_rate {
        96000 => 0,
        88200 => 1,
        64000 => 2,
        48000 => 3,
        44100 => 4,
        32000 => 5,
        24000 => 6,
        22050 => 7,
        16000 => 8,
        12000 => 9,
        11025 => 10,
        8000 => 11,
        _ => 4,
    }
}

/// AAC-LC AudioSpecificConfig (two bytes).
pub open spec fn aac_asc_spec(channels: u8, sample_rate: u32) -> Seq<u8> {
    let sri = aac_rate_index_spec(sample_rate);
    seq![0x11u8 | ((sri >> 1u8) << 3u8), ((sri & 1u8) << 7u8) | (channels << 3u8)]
}

/// The ES_Descriptor carried by `esds`.
pub open spec fn es_descriptor_spec(channels: u8, sample_rate: u32) -> Seq<u8> {
    let dsi = seq![0x05u8, 2u8] + aac_asc_spec(channels, sample_rate);
    let dcd = seq![
        0x04u8,
        17u8,
        0x40u8,
        0x15u8,
        0u8,
        0u8,
        0u8,
        0u8,
        0u8,
        0u8,
        0u8,
        0u8,
        0u8,
        0u8,
        0u8,
    ] + dsi;
    let slcd = seq![0x06u8, 0x01u8, 0x02u8];
    seq![0x03u8, 25u8, 0x00u8, 0x00u8, 0x00u8] + dcd + slcd
}

pub open spec fn esds_spec(channels: u8, sample_rate: u32) -> Seq<u8> {
    full_box_spec(ESDS@, 0, 0, es_descriptor_spec(channels, sample_rate))
}

pub fn build_esds(channels: u8, sample_rate: u32) -> (r: Vec<u8>)
    ensures
        r@ == esds_spec(channels, sample_rate),
{
    // Encode sample_rate index for AAC
    let sri = aac_rate_index(sample_rate);
    // AudioSpecificConfig: AAC-LC, sample_rate_index, channels
    let asc: [u8; 2] = [0x11u8 | ((sri >> 1u8) << 3u8), ((sri & 1u8) << 7u8) | (channels << 3u8)];
    // DecoderSpecificInfo tag (0x05)
    let mut dsi: Vec<u8> = Vec::new();
    dsi.push(0x05);
    dsi.push(asc.len() as u8);
    append(&mut dsi, &asc);
    // DecoderConfigDescriptor tag (0x04): objectTypeIndication=0x40 (AAC), streamType=0x15
    let mut dcd: Vec<u8> = Vec::new();
    dcd.push(0x04);
    dcd.push((13 + dsi.len()) as u8);
    dcd.push(0x40);  // objectTypeIndication = Audio ISO/IEC 14496-3
    dcd.push(0x15);  // streamType=0x05 (AudioStream) <<1 | upStream=0 | 1
    append_zeros(&mut dcd, 3);  // bufferSizeDB
    append_zeros(&mut dcd, 4);  // maxBitrate
    append_zeros(&mut dcd, 4);  // avgBitrate
    append(&mut dcd, dsi.as_slice());
    // SLConfigDescriptor (0x06): predefined=2
    let slcd: [u8; 3] = [0x06, 0x01, 0x02];
    // ES_Descriptor (0x03)
    let mut esd: Vec<u8> = Vec::new();
    esd.push(0x03);
    esd.push((3 + dcd.len() + slcd.len()) as u8);
    esd.push(0x00);
    esd.push(0x00);
    esd.push(0x00);
    append(&mut esd, dcd.as_slice());
    append(&mut esd, &slcd);
    assert(esd@ =~= es_descriptor_spec(channels, sample_rate));
    make_full_box(&ESDS, 0, 0, esd.as_slice())
}

pub open spec fn mp4a_spec(sample_rate: u32, channels: u32) -> Seq<u8> {
    box_spec(
        MP4A@,
        zeros(6) + seq![0x00u8, 0x01u8] + zeros(8) + low16_spec(channels) + seq![0x00u8, 0x10u8]
            + zeros(4) + be32_spec(sample_rate << 16u32) + esds_spec(channels as u8, sample_rate),
    )
}

pub fn build_mp4a(sample_rate: u32, channels: u32) -> (r: Vec<u8>)
    ensures
        r@ == mp4a_spec(sample_rate, channels),
{
    let mut p: Vec<u8> = Vec::new();
    append_zeros(&mut p, 6);
    p.push(0x00);
    p.push(0x01);
    append_zeros(&mut p, 8);
    append_low16(&mut p, channels);  // channelcount (u16)
    p.push(0x00);  // samplesize = 16
    p.push(0x10);
    append_zeros(&mut p, 4);
    append(&mut p, &be32(sample_rate << 16u32));  // samplerate 16.16
    // esds (minimal, describing AAC LC)
    let esds = build_esds(channels as u8, sample_rate);
    append(&mut p, esds.as_slice());
    assert(p@ =~= zeros(6) + seq![0x00u8, 0x01u8] + zeros(8) + low16_spec(channels) + seq![
        0x00u8,
        0x10u8,
    ] + zeros(4) + be32_spec(sample_rate << 16u32) + esds_spec(channels as u8, sample_rate));
    make_box(&MP4A, p.as_slice())
}

/// A box's leading length field reads back as the box's whole length.
pub proof fn law_box_length(fourcc: Seq<u8>, payload: Seq<u8>)
    requires
        fourcc.len() == 4,
        payload.len() + 8 <= u32::MAX,
    ensures
        crate::bytes::read_be32(box_spec(fourcc, payload).subrange(0, 4)) == box_spec(fourcc, payload).len(),
{
    let b = box_spec(fourcc, payload);
    let v = (payload.len() + 8) as u32;
    crate::bytes::lemma_be32_roundtrip(v);
    assert(b.subrange(0, 4) =~= be32_spec(v));
}

} // verus!
