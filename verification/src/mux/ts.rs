//! MPEG-TS (ISO 13818-1) muxer: PAT + PMT + PES-packetised elementary streams
//! in 188-byte transport stream packets.
//!
//! Supports AV1 video (stream_type 0x06 with a registration descriptor),
//! H.264 video (0x1B), AAC audio (0x0F) and Opus audio (0x06, registered).
//! Single program; the PCR rides on the first video stream's keyframes.

use vstd::prelude::*;

use crate::bytes::{append, be32, be32_spec, byte_len};
use crate::crc::{crc32_mpeg, crc32_spec, lemma_crc_residue_zero};
use crate::error::Error;
use crate::text::{decimal_spec, message_with_number};
use crate::video::{CodecId, EncodedPacket, StreamInfo, StreamKind};

verus! {

pub const TS_PACKET_SIZE: usize = 188;
pub const SYNC_BYTE: u8 = 0x47;
pub const PAT_PID: u16 = 0x0000;
pub const PMT_PID: u16 = 0x0020;
/// PIDs for elementary streams start here.
pub const FIRST_ELEM: u16 = 0x0100;
pub const PROGRAM_NUM: u16 = 1;

/// MPEG-TS stream_type byte for a codec.
pub open spec fn stream_type_spec(codec: CodecId) -> u8 {
    match codec {
        CodecId::H264 => 0x1B,
        CodecId::Aac => 0x0F,
        _ => 0x06,
    }
}

pub fn stream_type(codec: &CodecId) -> (r: u8)
    ensures
        r == stream_type_spec(*codec),
{
    match codec {
        CodecId::H264 => 0x1B,
        CodecId::Aac => 0x0F,
        CodecId::Av1 => 0x06,  // private_data + registration descriptor
        CodecId::Opus => 0x06,
        _ => 0x06,
    }
}

/// The registration_descriptor format_identifier of a private stream.
pub open spec fn format_id_spec(codec: CodecId) -> Option<Seq<u8>> {
    match codec {
        CodecId::Av1 => Some(seq![0x41u8, 0x56u8, 0x30u8, 0x31u8]),
        CodecId::Opus => Some(seq![0x4Fu8, 0x70u8, 0x75u8, 0x73u8]),
        _ => None,
    }
}

pub fn format_id(codec: &CodecId) -> (r: Option<[u8; 4]>)
    ensures
        match r {
            Some(a) => format_id_spec(*codec) == Some(a@),
            None => format_id_spec(*codec) is None,
        },
{
    match codec {
        CodecId::Av1 => {
            let a: [u8; 4] = [0x41, 0x56, 0x30, 0x31];  // "AV01"
            assert(a@ =~= seq![0x41u8, 0x56u8, 0x30u8, 0x31u8]);
            Some(a)
        },
        CodecId::Opus => {
            let a: [u8; 4] = [0x4F, 0x70, 0x75, 0x73];  // "Opus"
            assert(a@ =~= seq![0x4Fu8, 0x70u8, 0x75u8, 0x73u8]);
            Some(a)
        },
        _ => None,
    }
}

// ── TS packets ───────────────────────────────────────────────────────────────

/// `n` stuffing bytes.
pub open spec fn stuffing(n: int) -> Seq<u8> {
    Seq::new(n as nat, |i: int| 0xFFu8)
}

/// The PID bytes with the payload_unit_start flag.
pub open spec fn ts_pid_bytes(pid: u16, payload_unit_start: bool) -> Seq<u8> {
    seq![
        ((if payload_unit_start { 1u8 } else { 0u8 }) << 6u8) | (((pid >> 8u16) as u8) & 0x1Fu8),
        (pid & 0xFFu16) as u8,
    ]
}

/// A 188-byte packet without adaptation field: header, then up to 184 payload
/// bytes, then 0xFF stuffing.
pub open spec fn ts_packet_spec(pid: u16, payload_unit_start: bool, cc: u8, payload: Seq<u8>) -> Seq<u8> {
    let copy = if payload.len() < 184 {
        payload.len() as int
    } else {
        184
    };
    seq![SYNC_BYTE] + ts_pid_bytes(pid, payload_unit_start) + seq![0x10u8 | (cc & 0x0Fu8)]
        + payload.subrange(0, copy) + stuffing(184 - copy)
}

/// The six PCR bytes of the adaptation field: the 90 kHz value is the
/// 33-bit base, the extension is 0.
pub open spec fn pcr_bytes(pcr: u64) -> Seq<u8> {
    let base = pcr;
    let ext = 0u16;
    seq![
        ((base >> 25u64) & 0xFFu64) as u8,
        ((base >> 17u64) & 0xFFu64) as u8,
        ((base >> 9u64) & 0xFFu64) as u8,
        ((base >> 1u64) & 0xFFu64) as u8,
        (((base & 1u64) as u8) << 7u8) | 0x7Eu8 | (((ext >> 8u16) as u8) & 1u8),
        (ext & 0xFFu16) as u8,
    ]
}

/// A 188-byte packet with an adaptation field carrying a PCR, then up to 176
/// payload bytes, then stuffing.
pub open spec fn ts_pcr_packet_spec(pid: u16, payload_unit_start: bool, cc: u8, pcr: u64, payload: Seq<u8>) -> Seq<u8> {
    let copy = if payload.len() < 176 {
        payload.len() as int
    } else {
        176
    };
    seq![SYNC_BYTE] + ts_pid_bytes(pid, payload_unit_start) + seq![0x30u8 | (cc & 0x0Fu8), 7u8, 0x10u8]
        + pcr_bytes(pcr) + payload.subrange(0, copy) + stuffing(176 - copy)
}

fn append_stuffing(out: &mut Vec<u8>, n: usize)
    ensures
        final(out)@ == old(out)@ + stuffing(n as int),
{
    let ghost start = out@;
    let mut i: usize = 0;
    while i < n
        invariant
            i <= n,
            out@ == start + stuffing(i as int),
        decreases n - i,
    {
        out.push(0xFF);
        i = i + 1;
        assert(out@ =~= start + stuffing(i as int));
    }
}

fn append_prefix(out: &mut Vec<u8>, payload: &[u8], copy: usize)
    requires
        copy <= payload@.len(),
    ensures
        final(out)@ == old(out)@ + payload@.subrange(0, copy as int),
{
    let ghost start = out@;
    let mut i: usize = 0;
    while i < copy
        invariant
            i <= copy,
            copy <= payload@.len(),
            out@ == start + payload@.subrange(0, i as int),
        decreases copy - i,
    {
        out.push(payload[i]);
        i = i + 1;
        assert(out@ =~= start + payload@.subrange(0, i as int));
    }
}

fn pid_bytes(pid: u16, payload_unit_start: bool) -> (r: [u8; 2])
    ensures
        r@ == ts_pid_bytes(pid, payload_unit_start),
{
    let pusi = if payload_unit_start { 1u8 } else { 0u8 };
    let r = [(pusi << 6u8) | (((pid >> 8u16) as u8) & 0x1Fu8), (pid & 0xFFu16) as u8];
    r
}

/// Append one 188-byte TS packet (no adaptation field) to `out`.
///
/// - `pid`: 13-bit packet identifier
/// - `payload_unit_start`: sets the PUSI flag
/// - `cc`: continuity counter (low 4 bits used)
/// - `payload`: up to 184 bytes of payload (rest is 0xFF stuffing)
pub fn write_ts_packet(out: &mut Vec<u8>, pid: u16, payload_unit_start: bool, cc: u8, payload: &[u8])
    ensures
        final(out)@ == old(out)@ + ts_packet_spec(pid, payload_unit_start, cc, payload@),
{
    let ghost start = out@;
    out.push(SYNC_BYTE);
    append(out, &pid_bytes(pid, payload_unit_start));
    // no adaptation field (0b01), CC in lower nibble
    out.push(0x10u8 | (cc & 0x0Fu8));
    let avail = TS_PACKET_SIZE - 4;
    let len = byte_len(payload);
    let copy = if len < avail { len } else { avail };
    append_prefix(out, payload, copy);
    append_stuffing(out, avail - copy);
    assert(out@ =~= start + ts_packet_spec(pid, payload_unit_start, cc, payload@));
}

/// Same as [`write_ts_packet`] but with an adaptation field carrying `pcr`.
pub fn write_ts_packet_with_pcr(
    out: &mut Vec<u8>,
    pid: u16,
    payload_unit_start: bool,
    cc: u8,
    pcr_90khz: u64,
    payload: &[u8],
)
    ensures
        final(out)@ == old(out)@ + ts_pcr_packet_spec(pid, payload_unit_start, cc, pcr_90khz, payload@),
{
    let ghost start = out@;
    out.push(SYNC_BYTE);
    append(out, &pid_bytes(pid, payload_unit_start));
    // adaptation field present + payload present (0b11)
    out.push(0x30u8 | (cc & 0x0Fu8));
    // Adaptation field: length=7, flags=PCR_present (0x10), 6 PCR bytes
    out.push(7);
    out.push(0x10);
    // PCR base = the 90 kHz value, extension 0
    let base = pcr_90khz;
    let ext: u16 = 0;
    out.push(((base >> 25u64) & 0xFFu64) as u8);
    out.push(((base >> 17u64) & 0xFFu64) as u8);
    out.push(((base >> 9u64) & 0xFFu64) as u8);
    out.push(((base >> 1u64) & 0xFFu64) as u8);
    out.push((((base & 1u64) as u8) << 7u8) | 0x7Eu8 | (((ext >> 8u16) as u8) & 1u8));
    out.push((ext & 0xFFu16) as u8);
    let avail = TS_PACKET_SIZE - 12;
    let len = byte_len(payload);
    let copy = if len < avail { len } else { avail };
    append_prefix(out, payload, copy);
    append_stuffing(out, avail - copy);
    assert(out@ =~= start + ts_pcr_packet_spec(pid, payload_unit_start, cc, pcr_90khz, payload@));
}


// ── PSI sections ─────────────────────────────────────────────────────────────

/// A PSI section: pointer_field 0, the section body, then CRC-32/MPEG-2 of the body.
pub open spec fn psi_section_spec(body: Seq<u8>) -> Seq<u8> {
    seq![0x00u8] + body + be32_spec(crc32_spec(0xFFFF_FFFF, body))
}

/// The PAT body: program 1 → PMT PID.
pub open spec fn pat_body_spec() -> Seq<u8> {
    seq![
        0x00u8,
        0xB0u8,
        13u8,
        0x00u8,
        0x01u8,
        0xC1u8,
        0x00u8,
        0x00u8,
        0x00u8,
        0x01u8,
        0xE0u8 | (((PMT_PID >> 8u16) as u8) & 0x1Fu8),
        (PMT_PID & 0xFFu16) as u8,
    ]
}

pub open spec fn pat_spec() -> Seq<u8> {
    psi_section_spec(pat_body_spec())
}

/// Finish a section whose bytes start with pointer_field, table_id and a
/// placeholder length: fill in section_length and append the CRC.
fn finish_section(section: &mut Vec<u8>)
    requires
        old(section)@.len() >= 4,
    ensures
        ({
            let s = old(section)@;
            let len = s.len() as u16;
            let body = seq![s[1], 0xB0u8 | (((len >> 8u16) as u8) & 0x0Fu8), (len & 0xFFu16) as u8]
                + s.subrange(4, s.len() as int);
            final(section)@ == seq![s[0]] + body + be32_spec(crc32_spec(0xFFFF_FFFF, body))
        }),
{
    let ghost s = section@;
    // section_length counts the bytes after the length field, CRC included:
    // the section's bytes past pointer_field, table_id and the two length
    // bytes, plus the four CRC bytes.
    let n = byte_len(section.as_slice());
    let section_len = (n - 4 + 4) as u16;
    section.set(2, 0xB0u8 | (((section_len >> 8u16) as u8) & 0x0Fu8));
    section.set(3, (section_len & 0xFFu16) as u8);
    let ghost body = seq![s[1], 0xB0u8 | (((section_len >> 8u16) as u8) & 0x0Fu8), (section_len & 0xFFu16) as u8]
        + s.subrange(4, s.len() as int);
    assert(section@.subrange(1, section@.len() as int) =~= body);
    let crc = crc32_mpeg(&section.as_slice()[1..n]);
    append(section, &be32(crc));
    assert(section@ =~= seq![s[0]] + body + be32_spec(crc32_spec(0xFFFF_FFFF, body)));
}

pub fn build_pat() -> (r: Vec<u8>)
    ensures
        r@ == pat_spec(),
{
    let mut section: Vec<u8> = Vec::new();
    section.push(0x00);  // pointer_field = 0
    section.push(0x00);  // table_id = PAT
    // section_syntax_indicator=1, '0'=0, reserved=11, section_length TBD
    section.push(0xB0);
    section.push(0x00);  // length placeholder [3]
    // transport_stream_id
    section.push(0x00);
    section.push(0x01);
    // reserved=11, version=0, current_next=1
    section.push(0xC1);
    // section_number, last_section_number
    section.push(0x00);
    section.push(0x00);
    // Program entry: program_num + PMT_PID
    section.push((PROGRAM_NUM >> 8u16) as u8);
    section.push((PROGRAM_NUM & 0xFFu16) as u8);
    section.push(0xE0u8 | (((PMT_PID >> 8u16) as u8) & 0x1Fu8));
    section.push((PMT_PID & 0xFFu16) as u8);
    let ghost s0 = section@;
    finish_section(&mut section);
    proof {
        let len = s0.len() as u16;
        assert(len == 13);
        assert(0xB0u8 | (((13u16 >> 8u16) as u8) & 0x0Fu8) == 0xB0u8) by (bit_vector);
        assert((13u16 & 0xFFu16) as u8 == 13u8) by (bit_vector);
        assert(((1u16 >> 8u16) as u8) == 0u8) by (bit_vector);
        assert(((1u16 & 0xFFu16) as u8) == 1u8) by (bit_vector);
        let body = seq![s0[1], 0xB0u8 | (((len >> 8u16) as u8) & 0x0Fu8), (len & 0xFFu16) as u8]
            + s0.subrange(4, s0.len() as int);
        assert(body =~= pat_body_spec());
    }
    assert(section@ =~= pat_spec());
    section
}

/// One PMT elementary-stream entry.
pub open spec fn pmt_entry_spec(pid: u16, codec: CodecId) -> Seq<u8> {
    let es_info = match format_id_spec(codec) {
        Some(fid) => seq![0x05u8, 4u8] + fid,
        None => Seq::<u8>::empty(),
    };
    let il = es_info.len() as u16;
    seq![
        stream_type_spec(codec),
        0xE0u8 | (((pid >> 8u16) as u8) & 0x1Fu8),
        (pid & 0xFFu16) as u8,
        0xF0u8 | (((il >> 8u16) as u8) & 0x0Fu8),
        (il & 0xFFu16) as u8,
    ] + es_info
}

/// The PMT entries of the first `n` streams.
pub open spec fn pmt_info_spec(streams: Seq<(u16, CodecId)>, n: int) -> Seq<u8>
    decreases n,
{
    if n <= 0 {
        Seq::empty()
    } else {
        pmt_info_spec(streams, n - 1) + pmt_entry_spec(streams[n - 1].0, streams[n - 1].1)
    }
}

pub open spec fn pmt_spec(streams: Seq<(u16, CodecId)>, pcr_pid: u16) -> Seq<u8> {
    let info = pmt_info_spec(streams, streams.len() as int);
    let len = (13 + info.len()) as u16;
    psi_section_spec(
        seq![
            0x02u8,
            0xB0u8 | (((len >> 8u16) as u8) & 0x0Fu8),
            (len & 0xFFu16) as u8,
            (PROGRAM_NUM >> 8u16) as u8,
            (PROGRAM_NUM & 0xFFu16) as u8,
            0xC1u8,
            0x00u8,
            0x00u8,
            0xE0u8 | (((pcr_pid >> 8u16) as u8) & 0x1Fu8),
            (pcr_pid & 0xFFu16) as u8,
            0xF0u8,
            0x00u8,
        ] + info,
    )
}

pub fn build_pmt(streams: &[(u16, CodecId)], pcr_pid: u16) -> (r: Vec<u8>)
    ensures
        r@ == pmt_spec(streams@, pcr_pid),
{
    let mut info: Vec<u8> = Vec::new();
    let mut i: usize = 0;
    while i < streams.len()
        invariant
            i <= streams@.len(),
            info@ == pmt_info_spec(streams@, i as int),
        decreases streams@.len() - i,
    {
        let pid = streams[i].0;
        let codec = &streams[i].1;
        let st = stream_type(codec);
        let mut es_info: Vec<u8> = Vec::new();
        if let Some(fid) = format_id(codec) {
            // registration_descriptor (tag=0x05)
            es_info.push(0x05);
            es_info.push(4);
            append(&mut es_info, &fid);
        }
        info.push(st);
        info.push(0xE0u8 | (((pid >> 8u16) as u8) & 0x1Fu8));
        info.push((pid & 0xFFu16) as u8);
        let il = byte_len(es_info.as_slice()) as u16;
        info.push(0xF0u8 | (((il >> 8u16) as u8) & 0x0Fu8));
        info.push((il & 0xFFu16) as u8);
        append(&mut info, es_info.as_slice());
        proof {
            let es = match format_id_spec(streams@[i as int].1) {
                Some(fid) => seq![0x05u8, 4u8] + fid,
                None => Seq::<u8>::empty(),
            };
            assert(es_info@ =~= es);
            assert(info@ =~= pmt_info_spec(streams@, i + 1));
        }
        i = i + 1;
    }
    let mut section: Vec<u8> = Vec::new();
    section.push(0x00);  // pointer_field
    section.push(0x02);  // table_id = PMT
    section.push(0xB0);
    section.push(0x00);  // length placeholder [3]
    section.push((PROGRAM_NUM >> 8u16) as u8);
    section.push((PROGRAM_NUM & 0xFFu16) as u8);
    section.push(0xC1);  // version=0, current_next=1
    section.push(0x00);  // section numbers
    section.push(0x00);
    // PCR_PID
    section.push(0xE0u8 | (((pcr_pid >> 8u16) as u8) & 0x1Fu8));
    section.push((pcr_pid & 0xFFu16) as u8);
    // program_info_length = 0
    section.push(0xF0);
    section.push(0x00);
    append(&mut section, info.as_slice());
    let ghost s0 = section@;
    finish_section(&mut section);
    proof {
        let info_s = pmt_info_spec(streams@, streams@.len() as int);
        let len = s0.len() as u16;
        assert(len == (13 + info_s.len()) as u16);
        let body = seq![s0[1], 0xB0u8 | (((len >> 8u16) as u8) & 0x0Fu8), (len & 0xFFu16) as u8]
            + s0.subrange(4, s0.len() as int);
        assert(body =~= seq![
            0x02u8,
            0xB0u8 | (((len >> 8u16) as u8) & 0x0Fu8),
            (len & 0xFFu16) as u8,
            (PROGRAM_NUM >> 8u16) as u8,
            (PROGRAM_NUM & 0xFFu16) as u8,
            0xC1u8,
            0x00u8,
            0x00u8,
            0xE0u8 | (((pcr_pid >> 8u16) as u8) & 0x1Fu8),
            (pcr_pid & 0xFFu16) as u8,
            0xF0u8,
            0x00u8,
        ] + info_s);
    }
    assert(section@ =~= pmt_spec(streams@, pcr_pid));
    section
}

// ── PES packetiser ───────────────────────────────────────────────────────────

/// The five bytes of a 33-bit PTS/DTS field with its marker prefix.
pub open spec fn pts_dts_spec(ts: u64, marker_hi: u8) -> Seq<u8> {
    seq![
        marker_hi | ((((ts >> 30u64) & 0x07u64) as u8) << 1u8) | 0x01u8,
        ((ts >> 22u64) & 0xFFu64) as u8,
        ((((ts >> 15u64) & 0x7Fu64) as u8) << 1u8) | 0x01u8,
        ((ts >> 7u64) & 0xFFu64) as u8,
        (((ts & 0x7Fu64) as u8) << 1u8) | 0x01u8,
    ]
}

pub fn write_pts_dts(buf: &mut Vec<u8>, ts: u64, marker_hi: u8)
    ensures
        final(buf)@ == old(buf)@ + pts_dts_spec(ts, marker_hi),
{
    buf.push(marker_hi | ((((ts >> 30u64) & 0x07u64) as u8) << 1u8) | 0x01u8);
    buf.push(((ts >> 22u64) & 0xFFu64) as u8);
    buf.push(((((ts >> 15u64) & 0x7Fu64) as u8) << 1u8) | 0x01u8);
    buf.push(((ts >> 7u64) & 0xFFu64) as u8);
    buf.push((((ts & 0x7Fu64) as u8) << 1u8) | 0x01u8);
    assert(final(buf)@ =~= old(buf)@ + pts_dts_spec(ts, marker_hi));
}

/// A PES header; the packet length field is 0 (unbounded) when the packet
/// would exceed 0xFFFF bytes.
pub open spec fn pes_header_spec(stream_id: u8, pts: u64, dts: Option<u64>, payload_len: nat) -> Seq<u8> {
    let has_dts = dts is Some;
    let header_data_len: u8 = if has_dts { 10 } else { 5 };
    let pes_pkt_len: u16 = if payload_len + 3 + header_data_len > 0xFFFF {
        0
    } else {
        (3 + header_data_len + payload_len) as u16
    };
    seq![0x00u8, 0x00u8, 0x01u8, stream_id, (pes_pkt_len >> 8u16) as u8, (pes_pkt_len & 0xFFu16) as u8, 0x80u8]
        + seq![if has_dts { 0xC0u8 } else { 0x80u8 }, header_data_len] + pts_dts_spec(
        pts,
        if has_dts {
            0x31u8
        } else {
            0x21u8
        },
    ) + match dts {
        Some(d) => pts_dts_spec(d, 0x11),
        None => Seq::<u8>::empty(),
    }
}

pub fn build_pes_header(stream_id: u8, pts_90khz: u64, dts_90khz: Option<u64>, payload_len: usize) -> (r: Vec<u8>)
    requires
        payload_len <= isize::MAX,
    ensures
        r@ == pes_header_spec(stream_id, pts_90khz, dts_90khz, payload_len as nat),
{
    let has_dts = dts_90khz.is_some();
    let pts_dts_flags: u8 = if has_dts { 0xC0 } else { 0x80 };
    let header_data_len: u8 = if has_dts { 10 } else { 5 };
    // PES packet length: 0 means unbounded (for video); set for audio.
    let pes_pkt_len: u16 = if payload_len + 3 + header_data_len as usize > 0xFFFF {
        0u16
    } else {
        (3 + header_data_len as usize + payload_len) as u16
    };
    let mut h: Vec<u8> = Vec::new();
    // start code prefix
    h.push(0x00);
    h.push(0x00);
    h.push(0x01);
    h.push(stream_id);
    h.push((pes_pkt_len >> 8u16) as u8);
    h.push((pes_pkt_len & 0xFFu16) as u8);
    // marker bits + flags
    h.push(0x80);
    h.push(pts_dts_flags);
    h.push(header_data_len);
    write_pts_dts(&mut h, pts_90khz, if has_dts { 0x31 } else { 0x21 });
    if let Some(dts) = dts_90khz {
        write_pts_dts(&mut h, dts, 0x11);
    }
    assert(h@ =~= pes_header_spec(stream_id, pts_90khz, dts_90khz, payload_len as nat));
    h
}


// ── MpegTsMuxer ──────────────────────────────────────────────────────────────

/// The packets that carry a PSI `section` on `pid`, starting at continuity
/// counter `cc`: 184-byte chunks, the first flagged payload_unit_start.
pub open spec fn section_packets_spec(pid: u16, cc: u8, section: Seq<u8>, first: bool) -> Seq<u8>
    decreases section.len(),
{
    if section.len() == 0 {
        Seq::empty()
    } else {
        let end = if section.len() < 184 {
            section.len() as int
        } else {
            184
        };
        ts_packet_spec(pid, first, cc, section.subrange(0, end)) + section_packets_spec(
            pid,
            ((cc + 1) as u8) & 0x0Fu8,
            section.subrange(end, section.len() as int),
            false,
        )
    }
}

/// The continuity counter after `section_packets_spec` for `len` bytes.
pub open spec fn section_cc_after(cc: u8, len: int) -> u8
    decreases len,
{
    if len <= 0 {
        cc
    } else if len <= 184 {
        ((cc + 1) as u8) & 0x0Fu8
    } else {
        section_cc_after(((cc + 1) as u8) & 0x0Fu8, len - 184)
    }
}

/// The packets carrying one PES packet `payload` on `pid`: the first one
/// carries the PCR in an adaptation field when `pcr` is given.
pub open spec fn pes_packets_spec(pid: u16, cc: u8, payload: Seq<u8>, first: bool, pcr: Option<u64>) -> Seq<u8>
    decreases payload.len(),
{
    if payload.len() == 0 {
        Seq::empty()
    } else {
        let with_pcr = first && pcr is Some;
        let avail: int = if with_pcr {
            176
        } else {
            184
        };
        let end = if payload.len() < avail {
            payload.len() as int
        } else {
            avail
        };
        let head = if with_pcr {
            ts_pcr_packet_spec(pid, true, cc, pcr->0, payload.subrange(0, end))
        } else {
            ts_packet_spec(pid, first, cc, payload.subrange(0, end))
        };
        head + pes_packets_spec(pid, ((cc + 1) as u8) & 0x0Fu8, payload.subrange(end, payload.len() as int), false, pcr)
    }
}

/// The continuity counter after `pes_packets_spec`.
pub open spec fn pes_cc_after(cc: u8, len: int, first: bool, pcr: Option<u64>) -> u8
    decreases len,
{
    if len <= 0 {
        cc
    } else {
        let avail: int = if first && pcr is Some {
            176
        } else {
            184
        };
        if len <= avail {
            ((cc + 1) as u8) & 0x0Fu8
        } else {
            pes_cc_after(((cc + 1) as u8) & 0x0Fu8, len - avail, false, pcr)
        }
    }
}

/// One elementary stream of the program.
pub struct ElemStream {
    pub pid: u16,
    pub codec: CodecId,
    /// PES stream_id byte
    pub stream_id: u8,
    /// continuity counter
    pub cc: u8,
}

pub ghost struct ElemView {
    pub pid: u16,
    pub codec: CodecId,
    pub stream_id: u8,
    pub cc: u8,
}

impl View for ElemStream {
    type V = ElemView;

    open spec fn view(&self) -> ElemView {
        ElemView { pid: self.pid, codec: self.codec, stream_id: self.stream_id, cc: self.cc }
    }
}

/// The plain-value state of an [`MpegTsMuxer`].
pub ghost struct TsState {
    pub streams: Seq<ElemView>,
    pub pat_cc: u8,
    pub pmt_cc: u8,
    pub pat_pmt_interval: u32,
    pub pkt_count: u32,
    pub pcr_pid: u16,
    pub fps_num: u64,
    pub fps_den: u64,
}

impl TsState {
    /// Continuity counters are 4-bit and the PAT/PMT interval is positive.
    pub open spec fn wf(self) -> bool {
        &&& self.pat_cc <= 15
        &&& self.pmt_cc <= 15
        &&& self.pat_pmt_interval > 0
        &&& forall|i: int| 0 <= i < self.streams.len() ==> (#[trigger] self.streams[i]).cc <= 15
    }

    /// The (pid, codec) pairs listed in the PMT.
    pub open spec fn pmt_streams(self) -> Seq<(u16, CodecId)> {
        self.streams.map_values(|e: ElemView| (e.pid, e.codec))
    }

    /// The PAT and PMT packets this state emits.
    pub open spec fn pat_pmt_bytes(self) -> Seq<u8> {
        section_packets_spec(PAT_PID, self.pat_cc, pat_spec(), true) + section_packets_spec(
            PMT_PID,
            self.pmt_cc,
            pmt_spec(self.pmt_streams(), self.pcr_pid),
            true,
        )
    }

    /// The state after emitting PAT + PMT. The PAT counter advances by one;
    /// the PMT counter by the number of packets it took.
    pub open spec fn after_pat_pmt(self) -> TsState {
        TsState {
            pat_cc: ((self.pat_cc + 1) as u8) & 0x0Fu8,
            pmt_cc: section_cc_after(self.pmt_cc, pmt_spec(self.pmt_streams(), self.pcr_pid).len() as int),
            ..self
        }
    }

    /// Whether converting `pts` to the 90 kHz clock stays in `u64`.
    pub open spec fn pts_fits(self, pts: u64) -> bool {
        if self.fps_num == 0 {
            pts * 3000 <= u64::MAX
        } else {
            pts * self.fps_den <= u64::MAX && pts * self.fps_den * 90_000 <= u64::MAX
        }
    }

    /// `pts` (in units of `fps_den / fps_num` s) on the 90 kHz clock.
    pub open spec fn pts_90khz(self, pts: u64) -> u64 {
        if self.fps_num == 0 {
            (pts * 3000) as u64
        } else {
            ((pts * self.fps_den * 90_000) / (self.fps_num as int)) as u64
        }
    }
}

/// The stream index of the first video stream among the first `n`.
pub open spec fn first_video(streams: Seq<StreamInfo>, n: int) -> Option<int>
    decreases n,
{
    if n <= 0 {
        None
    } else {
        match first_video(streams, n - 1) {
            Some(i) => Some(i),
            None => if streams[n - 1].kind == StreamKind::Video {
                Some(n - 1)
            } else {
                None
            },
        }
    }
}

/// The elementary stream a stream becomes: PID 0x100 + index, stream_id 0xE0
/// for video and 0xC0 otherwise.
pub open spec fn elem_of_stream(s: StreamInfo, i: int) -> ElemView {
    ElemView {
        pid: (FIRST_ELEM + i) as u16,
        codec: s.codec,
        stream_id: if s.kind == StreamKind::Video {
            0xE0
        } else {
            0xC0
        },
        cc: 0,
    }
}

/// MPEG-TS muxer: decides packetisation and continuity; the caller supplies
/// the output buffer.
pub struct MpegTsMuxer {
    streams: Vec<ElemStream>,
    pat_cc: u8,
    pmt_cc: u8,
    /// write PAT+PMT every N packets
    pat_pmt_interval: u32,
    pkt_count: u32,
    pcr_pid: u16,
    /// (fps_num, fps_den)
    timebase: (u64, u64),
}

impl View for MpegTsMuxer {
    type V = TsState;

    closed spec fn view(&self) -> TsState {
        TsState {
            streams: self.streams@.map_values(|e: ElemStream| e@),
            pat_cc: self.pat_cc,
            pmt_cc: self.pmt_cc,
            pat_pmt_interval: self.pat_pmt_interval,
            pkt_count: self.pkt_count,
            pcr_pid: self.pcr_pid,
            fps_num: self.timebase.0,
            fps_den: self.timebase.1,
        }
    }
}

impl MpegTsMuxer {
    /// Create a new MPEG-TS muxer; `fps_num / fps_den` is the video time base.
    pub fn new(streams: &[StreamInfo], fps_num: u64, fps_den: u64) -> (r: Result<Self, Error>)
        requires
            streams@.len() <= 0xFF00,
        ensures
            r matches Ok(m) && m@ == (TsState {
                streams: Seq::new(streams@.len(), |i: int| elem_of_stream(streams@[i], i)),
                pat_cc: 0,
                pmt_cc: 0,
                pat_pmt_interval: 30,
                pkt_count: 0,
                pcr_pid: match first_video(streams@, streams@.len() as int) {
                    Some(i) => (FIRST_ELEM + i) as u16,
                    None => FIRST_ELEM,
                },
                fps_num,
                fps_den,
            }) && m@.wf(),
    {
        let mut elem: Vec<ElemStream> = Vec::new();
        let mut pcr_pid = FIRST_ELEM;
        let mut first_video_seen = true;
        let mut i: usize = 0;
        while i < streams.len()
            invariant
                i <= streams@.len(),
                streams@.len() <= 0xFF00,
                elem@.len() == i,
                forall|j: int| 0 <= j < i ==> (#[trigger] elem@[j])@ == elem_of_stream(streams@[j], j),
                first_video_seen == (first_video(streams@, i as int) is None),
                pcr_pid == match first_video(streams@, i as int) {
                    Some(k) => (FIRST_ELEM + k) as u16,
                    None => FIRST_ELEM,
                },
            decreases streams@.len() - i,
        {
            let s = &streams[i];
            let pid = FIRST_ELEM + i as u16;
            let stream_id = if s.is_video() {
                if first_video_seen {
                    pcr_pid = pid;
                    first_video_seen = false;
                }
                0xE0
            } else {
                0xC0
            };
            elem.push(ElemStream { pid, codec: s.codec.copy(), stream_id, cc: 0 });
            i = i + 1;
        }
        let m = MpegTsMuxer {
            streams: elem,
            pat_cc: 0,
            pmt_cc: 0,
            pat_pmt_interval: 30,
            pkt_count: 0,
            pcr_pid,
            timebase: (fps_num, fps_den),
        };
        assert(m@.streams =~= Seq::new(streams@.len(), |k: int| elem_of_stream(streams@[k], k)));
        Ok(m)
    }

    /// Append the packets carrying `section` on `pid`, advancing `cc`.
    fn write_section_packets(&self, out: &mut Vec<u8>, pid: u16, cc: &mut u8, section: &[u8])
        requires
            *old(cc) <= 15,
        ensures
            final(out)@ == old(out)@ + section_packets_spec(pid, *old(cc), section@, true),
            *final(cc) == section_cc_after(*old(cc), section@.len() as int),
            *final(cc) <= 15,
    {
        let ghost start = out@;
        let ghost cc0 = *cc;
        let n = byte_len(section);
        let mut offset: usize = 0;
        let mut first = true;
        assert(section@.subrange(0, n as int) =~= section@);
        while offset < n
            invariant
                offset <= n,
                n == section@.len(),
                *cc <= 15,
                first == (offset == 0),
                out@ + section_packets_spec(pid, *cc, section@.subrange(offset as int, n as int), first)
                    == start + section_packets_spec(pid, cc0, section@, true),
                section_cc_after(*cc, n - offset) == section_cc_after(cc0, n as int),
            decreases n - offset,
        {
            let avail = TS_PACKET_SIZE - 4;
            let end = if n - offset < avail { n } else { offset + avail };
            let ghost rest = section@.subrange(offset as int, n as int);
            let ghost cur = *cc;
            write_ts_packet(out, pid, first, *cc, &section[offset..end]);
            *cc = (*cc + 1) & 0x0F;
            proof {
                assert(rest.subrange(0, end - offset) =~= section@.subrange(offset as int, end as int));
                assert(rest.subrange(end - offset, rest.len() as int) =~= section@.subrange(end as int, n as int));
                assert(section_packets_spec(pid, cur, rest, first) == ts_packet_spec(
                    pid,
                    first,
                    cur,
                    rest.subrange(0, end - offset),
                ) + section_packets_spec(pid, *cc, rest.subrange(end - offset, rest.len() as int), false));
                assert(out@ + section_packets_spec(pid, *cc, section@.subrange(end as int, n as int), false) =~= start
                    + section_packets_spec(pid, cc0, section@, true));
                assert(*cc <= 15) by (bit_vector)
                    requires
                        *cc == ((cur + 1) as u8) & 0x0Fu8,
                        cur <= 15,
                ;
            }
            offset = end;
            first = false;
        }
        proof {
            assert(section@.subrange(n as int, n as int) =~= Seq::<u8>::empty());
        }
    }

    fn write_pat_pmt(&mut self, out: &mut Vec<u8>)
        requires
            old(self)@.wf(),
        ensures
            final(out)@ == old(out)@ + old(self)@.pat_pmt_bytes(),
            final(self)@ == old(self)@.after_pat_pmt(),
            final(self)@.wf(),
    {
        let pat = build_pat();
        let old_pat_cc = self.pat_cc;
        let mut pat_cc = self.pat_cc;
        self.write_section_packets(out, PAT_PID, &mut pat_cc, pat.as_slice());
        self.pat_cc = self.pat_cc.wrapping_add(1) & 0x0F;
        let ghost v = self@;
        let mut stream_specs: Vec<(u16, CodecId)> = Vec::new();
        let mut i: usize = 0;
        while i < self.streams.len()
            invariant
                i <= self.streams@.len(),
                v == self@,
                stream_specs@.len() == i,
                forall|j: int| 0 <= j < i ==> #[trigger] stream_specs@[j] == v.pmt_streams()[j],
            decreases self.streams@.len() - i,
        {
            stream_specs.push((self.streams[i].pid, self.streams[i].codec.copy()));
            i = i + 1;
        }
        assert(stream_specs@ =~= v.pmt_streams());
        let pmt = build_pmt(stream_specs.as_slice(), self.pcr_pid);
        let mut pmt_cc = self.pmt_cc;
        self.write_section_packets(out, PMT_PID, &mut pmt_cc, pmt.as_slice());
        self.pmt_cc = pmt_cc;
        proof {
            let p = self.pat_cc;
            assert(p <= 15 && p == ((old_pat_cc + 1) as u8) & 0x0Fu8) by (bit_vector)
                requires
                    p == old_pat_cc.wrapping_add(1) & 0x0Fu8,
                    old_pat_cc <= 15,
            ;
            assert(self.streams@.map_values(|e: ElemStream| e@) =~= old(self)@.streams);
        }
    }

    fn pts_to_90khz(&self, pts: u64) -> (r: u64)
        requires
            self@.pts_fits(pts),
        ensures
            r == self@.pts_90khz(pts),
    {
        // pts is in timebase units (1/fps), convert to 90 kHz clock
        let (num, den) = self.timebase;
        if num == 0 {
            return pts * 3000;
        }
        proof {
            vstd::arithmetic::mul::lemma_mul_nonnegative(pts as int, den as int);
        }
        pts * den * 90_000 / num
    }

    /// Append the packets carrying one PES `payload` on stream `idx`.
    fn write_pes_packets(&mut self, out: &mut Vec<u8>, idx: usize, payload: &[u8], pcr: Option<u64>)
        requires
            old(self)@.wf(),
            idx < old(self)@.streams.len(),
        ensures
            ({
                let st = old(self)@;
                let e = st.streams[idx as int];
                &&& final(out)@ == old(out)@ + pes_packets_spec(e.pid, e.cc, payload@, true, pcr)
                &&& final(self)@ == TsState {
                    streams: st.streams.update(
                        idx as int,
                        ElemView { cc: pes_cc_after(e.cc, payload@.len() as int, true, pcr), ..e },
                    ),
                    ..st
                }
                &&& final(self)@.wf()
            }),
    {
        let ghost st = self@;
        let ghost start = out@;
        let pid = self.streams[idx].pid;
        let cc0 = self.streams[idx].cc;
        let mut cc = cc0;
        let n = byte_len(payload);
        let mut offset: usize = 0;
        let mut first = true;
        proof {
            assert(st.streams[idx as int].cc <= 15);
            assert(payload@.subrange(0, n as int) =~= payload@);
        }
        while offset < n
            invariant
                offset <= n,
                n == payload@.len(),
                cc <= 15,
                first == (offset == 0),
                out@ + pes_packets_spec(pid, cc, payload@.subrange(offset as int, n as int), first, pcr) == start
                    + pes_packets_spec(pid, cc0, payload@, true, pcr),
                pes_cc_after(cc, n - offset, first, pcr) == pes_cc_after(cc0, n as int, true, pcr),
            decreases n - offset,
        {
            let ghost rest = payload@.subrange(offset as int, n as int);
            let ghost cur = cc;
            let end;
            if first && pcr.is_some() {
                let avail = TS_PACKET_SIZE - 12;  // 4 hdr + 8 adaptation field
                end = if n - offset < avail { n } else { offset + avail };
                let pcr_value = match pcr {
                    Some(v) => v,
                    None => 0,
                };
                write_ts_packet_with_pcr(out, pid, true, cc, pcr_value, &payload[offset..end]);
            } else {
                let avail = TS_PACKET_SIZE - 4;
                end = if n - offset < avail { n } else { offset + avail };
                write_ts_packet(out, pid, first, cc, &payload[offset..end]);
            }
            cc = (cc + 1) & 0x0F;
            proof {
                assert(rest.subrange(0, end - offset) =~= payload@.subrange(offset as int, end as int));
                assert(rest.subrange(end - offset, rest.len() as int) =~= payload@.subrange(end as int, n as int));
                assert(out@ + pes_packets_spec(pid, cc, payload@.subrange(end as int, n as int), false, pcr)
                    =~= start + pes_packets_spec(pid, cc0, payload@, true, pcr));
                assert(cc <= 15 && cc == ((cur + 1) as u8) & 0x0Fu8) by (bit_vector)
                    requires
                        cc == ((cur + 1) as u8) & 0x0Fu8,
                        cur <= 15,
                ;
            }
            offset = end;
            first = false;
        }
        let ghost v_before = self@;
        let e = self.streams.remove(idx);
        let ElemStream { pid: epid, codec, stream_id, cc: _ } = e;
        self.streams.insert(idx, ElemStream { pid: epid, codec, stream_id, cc });
        proof {
            assert(payload@.subrange(n as int, n as int) =~= Seq::<u8>::empty());
            assert(self@.streams =~= st.streams.update(
                idx as int,
                ElemView { cc: pes_cc_after(cc0, n as int, true, pcr), ..st.streams[idx as int] },
            ));
        }
    }

    /// Packetise one encoded packet (PAT + PMT first on keyframes and every
    /// `pat_pmt_interval` packets). An out-of-range stream index is an error;
    /// the PAT/PMT decision and packet count happen before that check.
    pub fn write_packet(&mut self, out: &mut Vec<u8>, packet: &EncodedPacket) -> (r: Result<(), Error>)
        requires
            old(self)@.wf(),
            old(self)@.pkt_count < u32::MAX,
            packet.stream_index < old(self)@.streams.len() ==> old(self)@.pts_fits(packet.pts),
        ensures
            final(self)@.wf(),
            ({
                let st = old(self)@;
                let emit = packet.is_keyframe || st.pkt_count % st.pat_pmt_interval == 0;
                let head = if emit {
                    st.pat_pmt_bytes()
                } else {
                    Seq::<u8>::empty()
                };
                let st1 = if emit {
                    st.after_pat_pmt()
                } else {
                    st
                };
                let st2 = TsState { pkt_count: (st.pkt_count + 1) as u32, ..st1 };
                if packet.stream_index >= st.streams.len() {
                    &&& r matches Err(Error::Video(m)) && m@ == "mpegts: stream index "@ + decimal_spec(
                        packet.stream_index as nat,
                    ) + " out of range"@
                    &&& final(out)@ == old(out)@ + head
                    &&& final(self)@ == st2
                } else {
                    let e = st2.streams[packet.stream_index as int];
                    let pts90 = st.pts_90khz(packet.pts);
                    let pcr = if e.pid == st.pcr_pid && packet.is_keyframe {
                        Some(pts90)
                    } else {
                        None
                    };
                    let payload = pes_header_spec(e.stream_id, pts90, None, packet.data@.len()) + packet.data@;
                    &&& r is Ok
                    &&& final(out)@ == old(out)@ + head + pes_packets_spec(e.pid, e.cc, payload, true, pcr)
                    &&& final(self)@ == TsState {
                        streams: st2.streams.update(
                            packet.stream_index as int,
                            ElemView { cc: pes_cc_after(e.cc, payload.len() as int, true, pcr), ..e },
                        ),
                        ..st2
                    }
                }
            }),
    {
        let ghost start = out@;
        // Periodically re-emit PAT+PMT for seekability.
        if packet.is_keyframe || self.pkt_count % self.pat_pmt_interval == 0 {
            self.write_pat_pmt(out);
        }
        self.pkt_count = self.pkt_count + 1;
        let stream_idx = packet.stream_index;
        if stream_idx >= self.streams.len() {
            return Err(Error::Video(message_with_number("mpegts: stream index ", stream_idx, " out of range")));
        }
        let ghost mid = out@;
        let pid = self.streams[stream_idx].pid;
        let stream_id = self.streams[stream_idx].stream_id;
        let is_pcr = pid == self.pcr_pid;
        let pts_90 = self.pts_to_90khz(packet.pts);
        let pes_hdr = build_pes_header(stream_id, pts_90, None, byte_len(packet.data.as_slice()));
        // Concatenate PES header + payload, then chop into 188-byte packets.
        let mut payload: Vec<u8> = Vec::new();
        append(&mut payload, pes_hdr.as_slice());
        append(&mut payload, packet.data.as_slice());
        let pcr = if is_pcr && packet.is_keyframe { Some(pts_90) } else { None };
        self.write_pes_packets(out, stream_idx, payload.as_slice(), pcr);
        assert(out@ =~= start + (mid.subrange(start.len() as int, mid.len() as int)) + (out@.subrange(
            mid.len() as int,
            out@.len() as int,
        )));
        Ok(())
    }

    /// Start the stream: PAT + PMT.
    pub fn write_header(&mut self, out: &mut Vec<u8>) -> (r: Result<(), Error>)
        requires
            old(self)@.wf(),
        ensures
            r is Ok,
            final(out)@ == old(out)@ + old(self)@.pat_pmt_bytes(),
            final(self)@ == old(self)@.after_pat_pmt(),
            final(self)@.wf(),
    {
        self.write_pat_pmt(out);
        Ok(())
    }

    /// End the stream (nothing is buffered, so nothing is written).
    pub fn write_trailer(&mut self, out: &mut Vec<u8>) -> (r: Result<(), Error>)
        ensures
            r is Ok,
            final(out)@ == old(out)@,
            final(self)@ == old(self)@,
    {
        Ok(())
    }
}

// ── laws ─────────────────────────────────────────────────────────────────────

/// A run of transport-stream packets: a whole number of 188-byte packets,
/// each starting with the sync byte.
pub open spec fn ts_packets(s: Seq<u8>) -> bool {
    &&& s.len() % 188 == 0
    &&& forall|k: int| 0 <= k < s.len() / 188 ==> #[trigger] s[188 * k] == SYNC_BYTE
}

proof fn lemma_ts_packets_append(a: Seq<u8>, b: Seq<u8>)
    requires
        ts_packets(a),
        ts_packets(b),
    ensures
        ts_packets(a + b),
{
    let c = a + b;
    assert forall|k: int| 0 <= k < c.len() / 188 implies #[trigger] c[188 * k] == SYNC_BYTE by {
        if k < a.len() / 188 {
            assert(c[188 * k] == a[188 * k]);
        } else {
            let j = k - a.len() / 188;
            assert(188 * k == a.len() + 188 * j);
            assert(c[188 * k] == b[188 * j]);
        }
    }
}

/// Every packet the muxer builds is exactly 188 bytes and starts with the
/// sync byte.
pub proof fn law_ts_packet_shape(pid: u16, payload_unit_start: bool, cc: u8, pcr: u64, payload: Seq<u8>)
    ensures
        ts_packet_spec(pid, payload_unit_start, cc, payload).len() == 188,
        ts_packet_spec(pid, payload_unit_start, cc, payload)[0] == SYNC_BYTE,
        ts_pcr_packet_spec(pid, payload_unit_start, cc, pcr, payload).len() == 188,
        ts_pcr_packet_spec(pid, payload_unit_start, cc, pcr, payload)[0] == SYNC_BYTE,
        ts_packets(ts_packet_spec(pid, payload_unit_start, cc, payload)),
        ts_packets(ts_pcr_packet_spec(pid, payload_unit_start, cc, pcr, payload)),
{
    let p = ts_packet_spec(pid, payload_unit_start, cc, payload);
    let q = ts_pcr_packet_spec(pid, payload_unit_start, cc, pcr, payload);
    assert(p.len() == 188);
    assert(q.len() == 188);
    assert forall|k: int| 0 <= k < p.len() / 188 implies #[trigger] p[188 * k] == SYNC_BYTE by {
        assert(k == 0);
    }
    assert forall|k: int| 0 <= k < q.len() / 188 implies #[trigger] q[188 * k] == SYNC_BYTE by {
        assert(k == 0);
    }
}

/// A PSI section goes out as whole transport-stream packets.
pub proof fn law_section_packets(pid: u16, cc: u8, section: Seq<u8>, first: bool)
    ensures
        ts_packets(section_packets_spec(pid, cc, section, first)),
    decreases section.len(),
{
    if section.len() > 0 {
        let end = if section.len() < 184 {
            section.len() as int
        } else {
            184
        };
        law_ts_packet_shape(pid, first, cc, 0, section.subrange(0, end));
        law_section_packets(pid, ((cc + 1) as u8) & 0x0Fu8, section.subrange(end, section.len() as int), false);
        lemma_ts_packets_append(
            ts_packet_spec(pid, first, cc, section.subrange(0, end)),
            section_packets_spec(pid, ((cc + 1) as u8) & 0x0Fu8, section.subrange(end, section.len() as int), false),
        );
    } else {
        assert(ts_packets(Seq::<u8>::empty()));
    }
}

/// A PES packet goes out as whole transport-stream packets.
pub proof fn law_pes_packets(pid: u16, cc: u8, payload: Seq<u8>, first: bool, pcr: Option<u64>)
    ensures
        ts_packets(pes_packets_spec(pid, cc, payload, first, pcr)),
    decreases payload.len(),
{
    if payload.len() > 0 {
        let with_pcr = first && pcr is Some;
        let avail: int = if with_pcr {
            176
        } else {
            184
        };
        let end = if payload.len() < avail {
            payload.len() as int
        } else {
            avail
        };
        let p = if with_pcr {
            pcr->0
        } else {
            0
        };
        law_ts_packet_shape(pid, first, cc, p, payload.subrange(0, end));
        law_ts_packet_shape(pid, true, cc, p, payload.subrange(0, end));
        let head = if with_pcr {
            ts_pcr_packet_spec(pid, true, cc, pcr->0, payload.subrange(0, end))
        } else {
            ts_packet_spec(pid, first, cc, payload.subrange(0, end))
        };
        law_pes_packets(pid, ((cc + 1) as u8) & 0x0Fu8, payload.subrange(end, payload.len() as int), false, pcr);
        lemma_ts_packets_append(
            head,
            pes_packets_spec(pid, ((cc + 1) as u8) & 0x0Fu8, payload.subrange(end, payload.len() as int), false, pcr),
        );
    } else {
        assert(ts_packets(Seq::<u8>::empty()));
    }
}

/// Every PSI section the muxer emits checks: running the CRC over the
/// section (after its pointer field), trailing CRC included, leaves zero, as
/// a demuxer validates it. So do the PAT and every PMT.
pub proof fn law_psi_sections_check(body: Seq<u8>, streams: Seq<(u16, CodecId)>, pcr_pid: u16)
    ensures
        crc32_spec(0xFFFF_FFFF, psi_section_spec(body).drop_first()) == 0,
        crc32_spec(0xFFFF_FFFF, pat_spec().drop_first()) == 0,
        crc32_spec(0xFFFF_FFFF, pmt_spec(streams, pcr_pid).drop_first()) == 0,
{
    assert forall|b: Seq<u8>| crc32_spec(0xFFFF_FFFF, #[trigger] psi_section_spec(b).drop_first()) == 0 by {
        assert(psi_section_spec(b).drop_first() =~= b + be32_spec(crc32_spec(0xFFFF_FFFF, b)));
        lemma_crc_residue_zero(0xFFFF_FFFF, b);
    }
    assert(crc32_spec(0xFFFF_FFFF, psi_section_spec(body).drop_first()) == 0);
    assert(crc32_spec(0xFFFF_FFFF, psi_section_spec(pat_body_spec()).drop_first()) == 0);
    let info = pmt_info_spec(streams, streams.len() as int);
    let len = (13 + info.len()) as u16;
    let pmt_body = seq![
        0x02u8,
        0xB0u8 | (((len >> 8u16) as u8) & 0x0Fu8),
        (len & 0xFFu16) as u8,
        (PROGRAM_NUM >> 8u16) as u8,
        (PROGRAM_NUM & 0xFFu16) as u8,
        0xC1u8,
        0x00u8,
        0x00u8,
        0xE0u8 | (((pcr_pid >> 8u16) as u8) & 0x1Fu8),
        (pcr_pid & 0xFFu16) as u8,
        0xF0u8,
        0x00u8,
    ] + info;
    assert(crc32_spec(0xFFFF_FFFF, psi_section_spec(pmt_body).drop_first()) == 0);
}

/// Whatever `write_packet` appends for a packet of a known stream is a run
/// of whole 188-byte transport packets, each starting with the sync byte:
/// PAT and PMT when due (a keyframe, or every `pat_pmt_interval` packets),
/// then the PES packet on the stream's PID, its continuity counter running
/// on from the stream's last one.
pub proof fn law_write_packet_packetised(st: TsState, packet: EncodedPacket)
    requires
        packet.stream_index < st.streams.len(),
    ensures
        ({
            let emit = packet.is_keyframe || st.pkt_count % st.pat_pmt_interval == 0;
            let head = if emit {
                st.pat_pmt_bytes()
            } else {
                Seq::<u8>::empty()
            };
            let e = st.streams[packet.stream_index as int];
            let pts90 = st.pts_90khz(packet.pts);
            let pcr = if e.pid == st.pcr_pid && packet.is_keyframe {
                Some(pts90)
            } else {
                None
            };
            let payload = pes_header_spec(e.stream_id, pts90, None, packet.data@.len()) + packet.data@;
            ts_packets(head + pes_packets_spec(e.pid, e.cc, payload, true, pcr))
        }),
{
    let emit = packet.is_keyframe || st.pkt_count % st.pat_pmt_interval == 0;
    let e = st.streams[packet.stream_index as int];
    let pts90 = st.pts_90khz(packet.pts);
    let pcr = if e.pid == st.pcr_pid && packet.is_keyframe {
        Some(pts90)
    } else {
        None
    };
    let payload = pes_header_spec(e.stream_id, pts90, None, packet.data@.len()) + packet.data@;
    law_pes_packets(e.pid, e.cc, payload, true, pcr);
    if emit {
        law_section_packets(PAT_PID, st.pat_cc, pat_spec(), true);
        law_section_packets(PMT_PID, st.pmt_cc, pmt_spec(st.pmt_streams(), st.pcr_pid), true);
        lemma_ts_packets_append(
            section_packets_spec(PAT_PID, st.pat_cc, pat_spec(), true),
            section_packets_spec(PMT_PID, st.pmt_cc, pmt_spec(st.pmt_streams(), st.pcr_pid), true),
        );
        lemma_ts_packets_append(st.pat_pmt_bytes(), pes_packets_spec(e.pid, e.cc, payload, true, pcr));
    } else {
        assert(Seq::<u8>::empty() + pes_packets_spec(e.pid, e.cc, payload, true, pcr) =~= pes_packets_spec(
            e.pid,
            e.cc,
            payload,
            true,
            pcr,
        ));
    }
}

/// Whether the `k`-th 188-byte packet of `s` carries `pid`, has the
/// payload-unit-start flag exactly when it is the first packet of a first
/// call, and has the continuity counter that follows `cc` by `k` (mod 16).
pub open spec fn ts_header_at(s: Seq<u8>, k: int, pid: u16, first: bool, cc: u8) -> bool {
    &&& s[188 * k + 1] == ts_pid_bytes(pid, first && k == 0)[0]
    &&& s[188 * k + 2] == ts_pid_bytes(pid, first && k == 0)[1]
    &&& (s[188 * k + 3] & 0x0Fu8) as int == ((cc & 0x0Fu8) as int + k) % 16
}

proof fn lemma_cc_low_nibble(cc: u8)
    ensures
        ((0x10u8 | (cc & 0x0Fu8)) & 0x0Fu8) == cc & 0x0Fu8,
        ((0x30u8 | (cc & 0x0Fu8)) & 0x0Fu8) == cc & 0x0Fu8,
        (((((cc + 1) as u8) & 0x0Fu8) & 0x0Fu8) as int) == ((cc & 0x0Fu8) as int + 1) % 16,
        cc & 0x0Fu8 <= 15,
{
    assert(cc & 0x0Fu8 <= 15) by (bit_vector);
    assert(((0x10u8 | (cc & 0x0Fu8)) & 0x0Fu8) == cc & 0x0Fu8) by (bit_vector);
    assert(((0x30u8 | (cc & 0x0Fu8)) & 0x0Fu8) == cc & 0x0Fu8) by (bit_vector);
    assert((((((cc as u16 + 1) as u8) & 0x0Fu8) & 0x0Fu8) as u16) == ((cc & 0x0Fu8) as u16 + 1) % 16) by (bit_vector);
}

/// The packets carrying a PES packet all go out on its PID: only the first
/// (of the first call) has the payload-unit-start flag, and their continuity
/// counters run on from `cc`, one per packet, modulo 16.
pub proof fn law_pes_packet_headers(pid: u16, cc: u8, payload: Seq<u8>, first: bool, pcr: Option<u64>)
    ensures
        ({
            let s = pes_packets_spec(pid, cc, payload, first, pcr);
            &&& s.len() % 188 == 0
            &&& forall|k: int| 0 <= k < s.len() / 188 ==> #[trigger] ts_header_at(s, k, pid, first, cc)
        }),
    decreases payload.len(),
{
    let s = pes_packets_spec(pid, cc, payload, first, pcr);
    if payload.len() > 0 {
        let with_pcr = first && pcr is Some;
        let avail: int = if with_pcr {
            176
        } else {
            184
        };
        let end = if payload.len() < avail {
            payload.len() as int
        } else {
            avail
        };
        let head = if with_pcr {
            ts_pcr_packet_spec(pid, true, cc, pcr->0, payload.subrange(0, end))
        } else {
            ts_packet_spec(pid, first, cc, payload.subrange(0, end))
        };
        let cc2 = ((cc + 1) as u8) & 0x0Fu8;
        let tail = payload.subrange(end, payload.len() as int);
        let rest = pes_packets_spec(pid, cc2, tail, false, pcr);
        law_ts_packet_shape(pid, first, cc, 0, payload.subrange(0, end));
        law_ts_packet_shape(pid, true, cc, if pcr is Some { pcr->0 } else { 0 }, payload.subrange(0, end));
        law_pes_packet_headers(pid, cc2, tail, false, pcr);
        lemma_cc_low_nibble(cc);
        assert(s == head + rest);
        assert(head.len() == 188);
        assert(head[1] == ts_pid_bytes(pid, first)[0] && head[2] == ts_pid_bytes(pid, first)[1]
            && (head[3] & 0x0Fu8) == cc & 0x0Fu8);
        let rl = rest.len() as int;
        assert(s.len() / 188 == 1 + rl / 188) by (nonlinear_arith)
            requires
                s.len() == 188 + rl,
                rl % 188 == 0,
                rl >= 0,
        ;
        assert forall|k: int| 0 <= k < s.len() / 188 implies #[trigger] ts_header_at(s, k, pid, first, cc) by {
            if k == 0 {
                assert(s[1] == head[1]);
                assert(s[2] == head[2]);
                assert(s[3] == head[3]);
                assert(((cc & 0x0Fu8) as int + 0) % 16 == (cc & 0x0Fu8) as int);
            } else {
                assert(0 <= k - 1 < rl / 188);
                assert(188 * (k - 1) + 3 < rl) by (nonlinear_arith)
                    requires
                        0 <= k - 1 < rl / 188,
                        rl % 188 == 0,
                        rl >= 0,
                ;
                assert(ts_header_at(rest, k - 1, pid, false, cc2));
                assert(s[188 * k + 1] == rest[188 * (k - 1) + 1]);
                assert(s[188 * k + 2] == rest[188 * (k - 1) + 2]);
                assert(s[188 * k + 3] == rest[188 * (k - 1) + 3]);
                assert(((cc2 & 0x0Fu8) as int + (k - 1)) % 16 == ((cc & 0x0Fu8) as int + k) % 16);
            }
        }
    }
}


/// The length of a PMT elementary-stream entry: five bytes, and six more for
/// the registration descriptor of an AV1 or Opus stream.
pub open spec fn es_entry_len(codec: CodecId) -> int {
    if codec is Av1 || codec is Opus {
        11
    } else {
        5
    }
}

/// Where the entry of stream `k` starts among the PMT's entries.
pub open spec fn es_entries_len(streams: Seq<(u16, CodecId)>, k: int) -> int
    decreases k,
{
    if k <= 0 {
        0
    } else {
        es_entries_len(streams, k - 1) + es_entry_len(streams[k - 1].1)
    }
}

/// The PMT entries of the first `n` streams take [`es_entries_len`] bytes.
proof fn lemma_pmt_info_len(streams: Seq<(u16, CodecId)>, n: int)
    requires
        0 <= n <= streams.len(),
    ensures
        pmt_info_spec(streams, n).len() == es_entries_len(streams, n),
    decreases n,
{
    if n > 0 {
        lemma_pmt_info_len(streams, n - 1);
        assert(pmt_entry_spec(streams[n - 1].0, streams[n - 1].1).len() == es_entry_len(streams[n - 1].1));
    }
}

/// The entries of the first `k` streams take no negative room.
proof fn lemma_entries_nonneg(streams: Seq<(u16, CodecId)>, k: int)
    ensures
        es_entries_len(streams, k) >= 0,
    decreases k,
{
    if k > 0 {
        lemma_entries_nonneg(streams, k - 1);
    }
}

/// Entry `k` ends before the entries of the first `m > k` streams do.
proof fn lemma_entry_within(streams: Seq<(u16, CodecId)>, k: int, m: int)
    requires
        0 <= k < m <= streams.len(),
    ensures
        es_entries_len(streams, k) + es_entry_len(streams[k].1) <= es_entries_len(streams, m),
    decreases m,
{
    if m - 1 > k {
        lemma_entry_within(streams, k, m - 1);
    }
}

/// The PMT entries of the first `n` streams lie end to end, entry `k` at
/// [`es_entries_len`].
proof fn lemma_pmt_entries(streams: Seq<(u16, CodecId)>, n: int, k: int)
    requires
        0 <= k < n <= streams.len(),
    ensures
        pmt_info_spec(streams, n).subrange(
            es_entries_len(streams, k),
            es_entries_len(streams, k) + es_entry_len(streams[k].1),
        ) == pmt_entry_spec(streams[k].0, streams[k].1),
    decreases n,
{
    let prev = pmt_info_spec(streams, n - 1);
    let last = pmt_entry_spec(streams[n - 1].0, streams[n - 1].1);
    let a = es_entries_len(streams, k);
    let b = a + es_entry_len(streams[k].1);
    lemma_entries_nonneg(streams, k);
    lemma_pmt_info_len(streams, n - 1);
    assert(pmt_info_spec(streams, n) == prev + last);
    if k < n - 1 {
        lemma_pmt_entries(streams, n - 1, k);
        lemma_entry_within(streams, k, n - 1);
        assert(pmt_info_spec(streams, n).subrange(a, b) =~= prev.subrange(a, b));
    } else {
        assert(last.len() == es_entry_len(streams[k].1));
        assert(pmt_info_spec(streams, n).subrange(a, b) =~= last);
    }
}

/// In the PMT, the entry of stream `k` (after the pointer field and the
/// 12-byte section header) starts with the ISO 13818-1 stream_type of its
/// codec: 0x1B for H.264, 0x0F for AAC, and 0x06 (private data) for any
/// other; an AV1 or Opus entry carries a registration descriptor (tag 5,
/// length 4) with the format identifier `AV01` or `Opus`.
pub proof fn law_pmt_stream_types(streams: Seq<(u16, CodecId)>, pcr_pid: u16, k: int)
    requires
        0 <= k < streams.len(),
    ensures
        ({
            let p = pmt_spec(streams, pcr_pid);
            let o = 13 + es_entries_len(streams, k);
            let c = streams[k].1;
            &&& c is H264 ==> p[o] == 0x1Bu8
            &&& c is Aac ==> p[o] == 0x0Fu8
            &&& !(c is H264 || c is Aac) ==> p[o] == 0x06u8
            &&& c is Av1 ==> p.subrange(o + 3, o + 11) == seq![0xF0u8, 6u8, 0x05u8, 4u8, 0x41u8, 0x56u8, 0x30u8, 0x31u8]
            &&& c is Opus ==> p.subrange(o + 3, o + 11) == seq![0xF0u8, 6u8, 0x05u8, 4u8, 0x4Fu8, 0x70u8, 0x75u8, 0x73u8]
        }),
{
    let n = streams.len() as int;
    lemma_pmt_entries(streams, n, k);
    lemma_pmt_info_len(streams, n);
    lemma_entry_within(streams, k, n);
    lemma_entries_nonneg(streams, k);
    let info = pmt_info_spec(streams, n);
    let p = pmt_spec(streams, pcr_pid);
    let o = 13 + es_entries_len(streams, k);
    let c = streams[k].1;
    let entry = pmt_entry_spec(streams[k].0, c);
    let len = (13 + info.len()) as u16;
    let header = seq![
        0x02u8,
        0xB0u8 | (((len >> 8u16) as u8) & 0x0Fu8),
        (len & 0xFFu16) as u8,
        (PROGRAM_NUM >> 8u16) as u8,
        (PROGRAM_NUM & 0xFFu16) as u8,
        0xC1u8,
        0x00u8,
        0x00u8,
        0xE0u8 | (((pcr_pid >> 8u16) as u8) & 0x1Fu8),
        (pcr_pid & 0xFFu16) as u8,
        0xF0u8,
        0x00u8,
    ];
    assert(p =~= seq![0x00u8] + header + info + be32_spec(crc32_spec(0xFFFF_FFFF, header + info)));
    assert(p.subrange(o, o + es_entry_len(c)) =~= info.subrange(o - 13, o - 13 + es_entry_len(c)));
    assert(p[o] == entry[0]);
    if c is Av1 || c is Opus {
        let il: u16 = 6;
        assert((0xF0u8 | (((il >> 8u16) as u8) & 0x0Fu8)) == 0xF0u8 && (il & 0xFFu16) as u8 == 6u8) by (bit_vector)
            requires
                il == 6u16,
        ;
        assert(p.subrange(o + 3, o + 11) =~= entry.subrange(3, 11));
    }
}


/// The 33-bit timestamp a demuxer reads back from the five PTS/DTS bytes
/// (3 + 8 + 7 + 8 + 7 bits, each group followed by a marker bit).
pub open spec fn read_pts(b: Seq<u8>) -> u64 {
    ((((b[0] >> 1u8) & 0x07u8) as u64) << 30u64) | ((b[1] as u64) << 22u64) | ((((b[2] >> 1u8) & 0x7Fu8) as u64)
        << 15u64) | ((b[3] as u64) << 7u64) | (((b[4] >> 1u8) & 0x7Fu8) as u64)
}

/// The five timestamp bytes give back the timestamp modulo 2^33, carry the
/// prefix nibble `marker_hi >> 4` in their first byte and have all three
/// marker bits set.
proof fn lemma_pts_roundtrip(ts: u64, marker_hi: u8)
    requires
        marker_hi & 0x0Fu8 == 1u8,
    ensures
        read_pts(pts_dts_spec(ts, marker_hi)) == ts % 0x2_0000_0000,
        pts_dts_spec(ts, marker_hi)[0] >> 4u8 == marker_hi >> 4u8,
        pts_dts_spec(ts, marker_hi)[0] & 1u8 == 1u8,
        pts_dts_spec(ts, marker_hi)[2] & 1u8 == 1u8,
        pts_dts_spec(ts, marker_hi)[4] & 1u8 == 1u8,
{
    let b = pts_dts_spec(ts, marker_hi);
    let b0 = marker_hi | ((((ts >> 30u64) & 0x07u64) as u8) << 1u8) | 0x01u8;
    let b1 = ((ts >> 22u64) & 0xFFu64) as u8;
    let b2 = ((((ts >> 15u64) & 0x7Fu64) as u8) << 1u8) | 0x01u8;
    let b3 = ((ts >> 7u64) & 0xFFu64) as u8;
    let b4 = (((ts & 0x7Fu64) as u8) << 1u8) | 0x01u8;
    assert(b[0] == b0 && b[1] == b1 && b[2] == b2 && b[3] == b3 && b[4] == b4);
    assert(((((b0 >> 1u8) & 0x07u8) as u64) << 30u64) | ((b1 as u64) << 22u64) | ((((b2 >> 1u8) & 0x7Fu8) as u64)
        << 15u64) | ((b3 as u64) << 7u64) | (((b4 >> 1u8) & 0x7Fu8) as u64) == ts & 0x1_FFFF_FFFFu64
        && b0 >> 4u8 == marker_hi >> 4u8 && b0 & 1u8 == 1u8 && b2 & 1u8 == 1u8 && b4 & 1u8 == 1u8) by (bit_vector)
        requires
            marker_hi & 0x0Fu8 == 1u8,
            b0 == marker_hi | ((((ts >> 30u64) & 0x07u64) as u8) << 1u8) | 0x01u8,
            b1 == ((ts >> 22u64) & 0xFFu64) as u8,
            b2 == ((((ts >> 15u64) & 0x7Fu64) as u8) << 1u8) | 0x01u8,
            b3 == ((ts >> 7u64) & 0xFFu64) as u8,
            b4 == (((ts & 0x7Fu64) as u8) << 1u8) | 0x01u8,
    ;
    assert(ts & 0x1_FFFF_FFFFu64 == ts % 0x2_0000_0000) by (bit_vector);
}

/// A PES header with a PTS only: the start code 00 00 01, the stream id, a
/// packet length counting the bytes after it (8 header bytes and the
/// payload; 0, "unbounded", when that exceeds 16 bits), the flags 0x80
/// (PTS present) and header length 5, and five PTS bytes with the `0010`
/// prefix and marker bits from which a demuxer reads back the PTS modulo
/// 2^33.
pub proof fn law_pes_header_pts(stream_id: u8, pts: u64, payload_len: nat)
    ensures
        ({
            let h = pes_header_spec(stream_id, pts, None, payload_len);
            &&& h.len() == 14
            &&& h.subrange(0, 4) == seq![0x00u8, 0x00u8, 0x01u8, stream_id]
            &&& h[4] as int * 256 + h[5] as int == if payload_len + 8 > 0xFFFF { 0 } else { payload_len + 8 }
            &&& h[6] == 0x80u8 && h[7] == 0x80u8 && h[8] == 5u8
            &&& read_pts(h.subrange(9, 14)) == pts % 0x2_0000_0000
            &&& h[9] >> 4u8 == 2u8
            &&& h[9] & 1u8 == 1u8 && h[11] & 1u8 == 1u8 && h[13] & 1u8 == 1u8
        }),
{
    let h = pes_header_spec(stream_id, pts, None, payload_len);
    let marker: u8 = 0x21;
    assert(marker & 0x0Fu8 == 1u8 && marker >> 4u8 == 2u8) by (bit_vector)
        requires
            marker == 0x21u8,
    ;
    lemma_pts_roundtrip(pts, marker);
    assert(h.subrange(9, 14) =~= pts_dts_spec(pts, marker));
    assert(h.subrange(0, 4) =~= seq![0x00u8, 0x00u8, 0x01u8, stream_id]);
    let l: u16 = if payload_len + 3 + 5u8 > 0xFFFF {
        0
    } else {
        (3 + 5u8 + payload_len) as u16
    };
    assert(((l >> 8u16) as u8) as int * 256 + ((l & 0xFFu16) as u8) as int == l) by (bit_vector);
}


/// The 13-bit PID a demuxer reads from header bytes 1 and 2.
pub open spec fn read_pid(b1: u8, b2: u8) -> u16 {
    (((b1 & 0x1Fu8) as u16) << 8u16) | (b2 as u16)
}

/// The 33-bit PCR base a demuxer reads from the first five PCR bytes.
pub open spec fn read_pcr_base(b: Seq<u8>) -> u64 {
    ((b[0] as u64) << 25u64) | ((b[1] as u64) << 17u64) | ((b[2] as u64) << 9u64) | ((b[3] as u64) << 1u64) | ((
    b[4] >> 7u8) as u64)
}

/// Header bytes 1 and 2 carry the PID and the payload-unit-start flag, with
/// the transport-error bit clear.
proof fn lemma_pid_bytes(pid: u16, payload_unit_start: bool)
    requires
        pid < 0x2000,
    ensures
        read_pid(ts_pid_bytes(pid, payload_unit_start)[0], ts_pid_bytes(pid, payload_unit_start)[1]) == pid,
        (ts_pid_bytes(pid, payload_unit_start)[0] & 0x40u8 == 0x40u8) == payload_unit_start,
        ts_pid_bytes(pid, payload_unit_start)[0] & 0x80u8 == 0u8,
{
    let u: u8 = if payload_unit_start { 1u8 } else { 0u8 };
    let b1 = (u << 6u8) | (((pid >> 8u16) as u8) & 0x1Fu8);
    let b2 = (pid & 0xFFu16) as u8;
    assert((((b1 & 0x1Fu8) as u16) << 8u16) | (b2 as u16) == pid && ((b1 & 0x40u8 == 0x40u8) == (u == 1u8)) && b1
        & 0x80u8 == 0u8) by (bit_vector)
        requires
            pid < 0x2000u16,
            u == 0u8 || u == 1u8,
            b1 == (u << 6u8) | (((pid >> 8u16) as u8) & 0x1Fu8),
            b2 == (pid & 0xFFu16) as u8,
    ;
}

/// A transport packet without adaptation field: sync byte 0x47, the PID and
/// payload-unit-start flag, control nibble 1 (payload only, unscrambled),
/// the continuity counter's low four bits, then the payload (its first 184
/// bytes) and 0xFF stuffing to 188 bytes. With a PCR, the control nibble is
/// 3 (adaptation field and payload), the 7-byte adaptation field flags the
/// PCR, whose 33-bit base reads back as the value modulo 2^33, and up to 176
/// payload bytes follow.
pub proof fn law_ts_packet_fields(pid: u16, payload_unit_start: bool, cc: u8, pcr: u64, payload: Seq<u8>)
    requires
        pid < 0x2000,
    ensures
        ({
            let p = ts_packet_spec(pid, payload_unit_start, cc, payload);
            let n = if payload.len() < 184 { payload.len() as int } else { 184 };
            &&& p.len() == 188 && p[0] == 0x47u8
            &&& read_pid(p[1], p[2]) == pid
            &&& (p[1] & 0x40u8 == 0x40u8) == payload_unit_start && p[1] & 0x80u8 == 0u8
            &&& p[3] >> 4u8 == 1u8 && p[3] & 0x0Fu8 == cc & 0x0Fu8
            &&& p.subrange(4, 4 + n) == payload.subrange(0, n)
            &&& forall|i: int| 4 + n <= i < 188 ==> p[i] == 0xFFu8
        }),
        ({
            let q = ts_pcr_packet_spec(pid, payload_unit_start, cc, pcr, payload);
            let n = if payload.len() < 176 { payload.len() as int } else { 176 };
            &&& q.len() == 188 && q[0] == 0x47u8
            &&& read_pid(q[1], q[2]) == pid
            &&& (q[1] & 0x40u8 == 0x40u8) == payload_unit_start && q[1] & 0x80u8 == 0u8
            &&& q[3] >> 4u8 == 3u8 && q[3] & 0x0Fu8 == cc & 0x0Fu8
            &&& q[4] == 7u8 && q[5] == 0x10u8
            &&& read_pcr_base(q.subrange(6, 11)) == pcr % 0x2_0000_0000
            &&& q.subrange(12, 12 + n) == payload.subrange(0, n)
            &&& forall|i: int| 12 + n <= i < 188 ==> q[i] == 0xFFu8
        }),
{
    lemma_pid_bytes(pid, payload_unit_start);
    let pb = ts_pid_bytes(pid, payload_unit_start);
    let p = ts_packet_spec(pid, payload_unit_start, cc, payload);
    let q = ts_pcr_packet_spec(pid, payload_unit_start, cc, pcr, payload);
    let n = if payload.len() < 184 { payload.len() as int } else { 184 };
    let nq = if payload.len() < 176 { payload.len() as int } else { 176 };
    assert(p[1] == pb[0] && p[2] == pb[1]);
    assert(q[1] == pb[0] && q[2] == pb[1]);
    let c3 = 0x10u8 | (cc & 0x0Fu8);
    let d3 = 0x30u8 | (cc & 0x0Fu8);
    assert(c3 >> 4u8 == 1u8 && c3 & 0x0Fu8 == cc & 0x0Fu8 && d3 >> 4u8 == 3u8 && d3 & 0x0Fu8 == cc & 0x0Fu8)
        by (bit_vector)
        requires
            c3 == 0x10u8 | (cc & 0x0Fu8),
            d3 == 0x30u8 | (cc & 0x0Fu8),
    ;
    assert(p.subrange(4, 4 + n) =~= payload.subrange(0, n));
    assert forall|i: int| 4 + n <= i < 188 implies p[i] == 0xFFu8 by {
        assert(p[i] == stuffing(184 - n)[i - 4 - n]);
    }
    let pc = pcr_bytes(pcr);
    assert(q.subrange(6, 11) =~= pc.subrange(0, 5));
    let b0 = ((pcr >> 25u64) & 0xFFu64) as u8;
    let b1 = ((pcr >> 17u64) & 0xFFu64) as u8;
    let b2 = ((pcr >> 9u64) & 0xFFu64) as u8;
    let b3 = ((pcr >> 1u64) & 0xFFu64) as u8;
    let ext = 0u16;
    let b4 = (((pcr & 1u64) as u8) << 7u8) | 0x7Eu8 | (((ext >> 8u16) as u8) & 1u8);
    assert(pc[0] == b0 && pc[1] == b1 && pc[2] == b2 && pc[3] == b3 && pc[4] == b4);
    assert(((b0 as u64) << 25u64) | ((b1 as u64) << 17u64) | ((b2 as u64) << 9u64) | ((b3 as u64) << 1u64) | ((b4
        >> 7u8) as u64) == pcr & 0x1_FFFF_FFFFu64) by (bit_vector)
        requires
            b0 == ((pcr >> 25u64) & 0xFFu64) as u8,
            b1 == ((pcr >> 17u64) & 0xFFu64) as u8,
            b2 == ((pcr >> 9u64) & 0xFFu64) as u8,
            b3 == ((pcr >> 1u64) & 0xFFu64) as u8,
            ext == 0u16,
            b4 == (((pcr & 1u64) as u8) << 7u8) | 0x7Eu8 | (((ext >> 8u16) as u8) & 1u8),
    ;
    assert(pcr & 0x1_FFFF_FFFFu64 == pcr % 0x2_0000_0000) by (bit_vector);
    assert(q.subrange(12, 12 + nq) =~= payload.subrange(0, nq));
    assert forall|i: int| 12 + nq <= i < 188 implies q[i] == 0xFFu8 by {
        assert(q[i] == stuffing(176 - nq)[i - 12 - nq]);
    }
}


/// The PSI tables' headers as a demuxer reads them (after the pointer
/// field): the PAT (table 0) declares a section length counting every byte
/// after the length field, CRC included, and maps program 1 to the PID the
/// muxer sends the PMT on; the PMT (table 2) is program 1's, names the PCR
/// PID, and, when it fits the 12-bit field, declares its section length
/// the same way.
pub proof fn law_psi_headers(streams: Seq<(u16, CodecId)>, pcr_pid: u16)
    requires
        pcr_pid < 0x2000,
    ensures
        ({
            let pat = pat_spec();
            &&& pat[0] == 0u8 && pat[1] == 0u8
            &&& (pat[2] & 0x0Fu8) as int * 256 + pat[3] as int == pat.len() - 4
            &&& pat[9] as int * 256 + pat[10] as int == 1
            &&& read_pid(pat[11], pat[12]) == PMT_PID
        }),
        ({
            let pmt = pmt_spec(streams, pcr_pid);
            &&& pmt[0] == 0u8 && pmt[1] == 0x02u8
            &&& pmt[4] as int * 256 + pmt[5] as int == 1
            &&& read_pid(pmt[9], pmt[10]) == pcr_pid
            &&& pmt.len() - 4 < 0x1000 ==> (pmt[2] & 0x0Fu8) as int * 256 + pmt[3] as int == pmt.len() - 4
        }),
{
    let pat = pat_spec();
    let body = pat_body_spec();
    assert(pat =~= seq![0x00u8] + body + be32_spec(crc32_spec(0xFFFF_FFFF, body)));
    assert(pat.len() == 17);
    let hi: u8 = 0xE0u8 | (((PMT_PID >> 8u16) as u8) & 0x1Fu8);
    let lo: u8 = (PMT_PID & 0xFFu16) as u8;
    assert(pat[11] == hi && pat[12] == lo);
    let b2: u8 = 0xB0u8;
    assert((b2 & 0x0Fu8) == 0u8 && (((hi & 0x1Fu8) as u16) << 8u16) | (lo as u16) == 0x0020u16) by (bit_vector)
        requires
            b2 == 0xB0u8,
            hi == 0xE0u8 | (((0x0020u16 >> 8u16) as u8) & 0x1Fu8),
            lo == (0x0020u16 & 0xFFu16) as u8,
    ;
    let info = pmt_info_spec(streams, streams.len() as int);
    let len = (13 + info.len()) as u16;
    let pmt = pmt_spec(streams, pcr_pid);
    let ph: u8 = 0xE0u8 | (((pcr_pid >> 8u16) as u8) & 0x1Fu8);
    let pl: u8 = (pcr_pid & 0xFFu16) as u8;
    let l2: u8 = 0xB0u8 | (((len >> 8u16) as u8) & 0x0Fu8);
    let l3: u8 = (len & 0xFFu16) as u8;
    let head = seq![
        0x02u8,
        l2,
        l3,
        (PROGRAM_NUM >> 8u16) as u8,
        (PROGRAM_NUM & 0xFFu16) as u8,
        0xC1u8,
        0x00u8,
        0x00u8,
        ph,
        pl,
        0xF0u8,
        0x00u8,
    ];
    assert(pmt =~= seq![0x00u8] + head + info + be32_spec(crc32_spec(0xFFFF_FFFF, head + info)));
    assert(pmt.len() == 17 + info.len());
    assert(pmt[9] == ph && pmt[10] == pl && pmt[2] == l2 && pmt[3] == l3);
    let pn: u16 = PROGRAM_NUM;
    assert(pmt[4] == (pn >> 8u16) as u8 && pmt[5] == (pn & 0xFFu16) as u8);
    assert((pn >> 8u16) as u8 == 0u8 && (pn & 0xFFu16) as u8 == 1u8) by (bit_vector)
        requires
            pn == 1u16,
    ;
    assert((((ph & 0x1Fu8) as u16) << 8u16) | (pl as u16) == pcr_pid) by (bit_vector)
        requires
            pcr_pid < 0x2000u16,
            ph == 0xE0u8 | (((pcr_pid >> 8u16) as u8) & 0x1Fu8),
            pl == (pcr_pid & 0xFFu16) as u8,
    ;
    if pmt.len() - 4 < 0x1000 {
        assert(len == pmt.len() - 4);
        assert((l2 & 0x0Fu8) as u16 * 256 + l3 as u16 == len) by (bit_vector)
            requires
                len < 0x1000u16,
                l2 == 0xB0u8 | (((len >> 8u16) as u8) & 0x0Fu8),
                l3 == (len & 0xFFu16) as u8,
        ;
        assert((pmt[2] & 0x0Fu8) as int * 256 + pmt[3] as int == len as int);
    }
}

} // verus!
