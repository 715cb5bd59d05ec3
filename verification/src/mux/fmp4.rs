//! Fragmented MP4 (fMP4 / ISO 14496-12): track boxes, `moof`+`mdat`
//! fragments, HLS init/segment builders and the [`FMp4Muxer`] state machine.
//!
//! The muxer produces `ftyp` → `moov` (no sample data) → one or more
//! `moof`+`mdat` fragments. It never touches a writer: each operation returns
//! the bytes the caller appends to its output.

use vstd::prelude::*;

use crate::bytes::{append, append_zeros, be32, be32_spec, be64, be64_spec, byte_len, read_be32, zeros};
use crate::error::Error;
use crate::text::{decimal_spec, message_with_number};
use crate::video::{packet_views, CodecId, EncodedPacket, PacketView, StreamInfo, StreamKind};
use super::boxes::{
    av01_spec, avc1_spec, box_spec, build_av01, build_avc1, build_ftyp, build_hdlr, build_mdhd,
    build_mp4a, build_mvhd, build_tkhd, ftyp_spec, full_box_spec, hdlr_spec, make_box,
    make_full_box, mdhd_spec, mp4a_spec, mvhd_spec, tkhd_spec,
};
use super::fourcc::{
    DINF, DREF, MDAT, MDIA, MFHD, MINF, MOOF, MOOV, MVEX, SMHD, SOUND_HANDLER, SOUN, STBL, STCO,
    STSC, STSD, STSZ, STTS, TFDT, TFHD, TRAF, TRAK, TREX, TRUN, URL_, VIDE, VIDEO_HANDLER, VMHD,
};

verus! {

// ── sample tables / track boxes ──────────────────────────────────────────────

/// Empty sample tables (`stsd` with one entry, then empty `stts`/`stsc`/`stsz`/`stco`).
pub open spec fn empty_stbl_spec(sample_entry: Seq<u8>) -> Seq<u8> {
    box_spec(
        STBL@,
        full_box_spec(STSD@, 0, 0, be32_spec(1) + sample_entry) + full_box_spec(STTS@, 0, 0, be32_spec(0))
            + full_box_spec(STSC@, 0, 0, be32_spec(0)) + full_box_spec(STSZ@, 0, 0, be32_spec(0) + be32_spec(0))
            + full_box_spec(STCO@, 0, 0, be32_spec(0)),
    )
}

pub fn build_empty_stbl(sample_entry: Vec<u8>) -> (r: Vec<u8>)
    ensures
        r@ == empty_stbl_spec(sample_entry@),
{
    let mut p: Vec<u8> = Vec::new();
    append(&mut p, &be32(1));  // entry_count = 1
    append(&mut p, sample_entry.as_slice());
    let stsd = make_full_box(&STSD, 0, 0, p.as_slice());
    let stts = make_full_box(&STTS, 0, 0, &be32(0));  // entry_count=0
    let stsc = make_full_box(&STSC, 0, 0, &be32(0));
    let mut q: Vec<u8> = Vec::new();
    append(&mut q, &be32(0));  // sample_size = variable
    append(&mut q, &be32(0));  // sample_count = 0
    let stsz = make_full_box(&STSZ, 0, 0, q.as_slice());
    let stco = make_full_box(&STCO, 0, 0, &be32(0));
    let mut stbl: Vec<u8> = Vec::new();
    append(&mut stbl, stsd.as_slice());
    append(&mut stbl, stts.as_slice());
    append(&mut stbl, stsc.as_slice());
    append(&mut stbl, stsz.as_slice());
    append(&mut stbl, stco.as_slice());
    assert(stbl@ =~= full_box_spec(STSD@, 0, 0, be32_spec(1) + sample_entry@) + full_box_spec(
        STTS@,
        0,
        0,
        be32_spec(0),
    ) + full_box_spec(STSC@, 0, 0, be32_spec(0)) + full_box_spec(STSZ@, 0, 0, be32_spec(0) + be32_spec(0))
        + full_box_spec(STCO@, 0, 0, be32_spec(0)));
    make_box(&STBL, stbl.as_slice())
}

/// `dinf` with a single self-contained `url ` data reference.
pub open spec fn dinf_spec() -> Seq<u8> {
    box_spec(DINF@, full_box_spec(DREF@, 0, 0, be32_spec(1) + full_box_spec(URL_@, 0, 1, Seq::empty())))
}

pub fn build_dinf() -> (r: Vec<u8>)
    ensures
        r@ == dinf_spec(),
{
    let empty: [u8; 0] = [];
    let url = make_full_box(&URL_, 0, 1, &empty);
    let mut p: Vec<u8> = Vec::new();
    append(&mut p, &be32(1));
    append(&mut p, url.as_slice());
    let dref = make_full_box(&DREF, 0, 0, p.as_slice());
    proof {
        assert(empty@ =~= Seq::<u8>::empty());
    }
    make_box(&DINF, dref.as_slice())
}

/// Per-track parameters the `trak` box is built from.
pub struct TrackInfo {
    pub track_id: u32,
    pub timescale: u32,
    pub codec: CodecId,
    /// video only
    pub width: u32,
    pub height: u32,
    /// audio only
    pub sample_rate: u32,
    pub channels: u32,
    /// codec private (e.g. avcC for H.264)
    pub codec_private: Vec<u8>,
    /// fragmentation state
    pub base_decode_time: u64,
    pub buffered: Vec<EncodedPacket>,
}

/// The plain-value view of a [`TrackInfo`].
pub ghost struct TrackView {
    pub track_id: u32,
    pub timescale: u32,
    pub codec: CodecId,
    pub width: u32,
    pub height: u32,
    pub sample_rate: u32,
    pub channels: u32,
    pub codec_private: Seq<u8>,
    pub base_decode_time: u64,
    pub buffered: Seq<PacketView>,
}

impl View for TrackInfo {
    type V = TrackView;

    open spec fn view(&self) -> TrackView {
        TrackView {
            track_id: self.track_id,
            timescale: self.timescale,
            codec: self.codec,
            width: self.width,
            height: self.height,
            sample_rate: self.sample_rate,
            channels: self.channels,
            codec_private: self.codec_private@,
            base_decode_time: self.base_decode_time,
            buffered: packet_views(self.buffered@),
        }
    }
}

/// The views of a sequence of tracks.
pub open spec fn track_views(s: Seq<TrackInfo>) -> Seq<TrackView> {
    s.map_values(|t: TrackInfo| t@)
}

/// Whether a codec is carried as an audio track.
pub open spec fn is_audio_codec(codec: CodecId) -> bool {
    codec is Aac || codec is Opus
}

/// The sample entry for a codec (`av01` for anything without its own entry).
pub open spec fn sample_entry_spec(t: TrackView) -> Seq<u8> {
    match t.codec {
        CodecId::H264 => avc1_spec(t.width, t.height, t.codec_private),
        CodecId::Av1 => av01_spec(t.width, t.height),
        CodecId::Aac => mp4a_spec(t.sample_rate, t.channels),
        _ => av01_spec(t.width, t.height),
    }
}

/// The media-information box of a track.
pub open spec fn minf_spec(t: TrackView) -> Seq<u8> {
    let media_header = if is_audio_codec(t.codec) {
        full_box_spec(SMHD@, 0, 0, zeros(4))
    } else {
        full_box_spec(VMHD@, 0, 1, zeros(8))
    };
    box_spec(MINF@, media_header + dinf_spec() + empty_stbl_spec(sample_entry_spec(t)))
}

/// The handler box of a track.
pub open spec fn track_hdlr_spec(t: TrackView) -> Seq<u8> {
    if is_audio_codec(t.codec) {
        hdlr_spec(SOUN@, SOUND_HANDLER@)
    } else {
        hdlr_spec(VIDE@, VIDEO_HANDLER@)
    }
}

pub open spec fn trak_spec(t: TrackView, movie_duration: u64) -> Seq<u8> {
    let mdia = box_spec(MDIA@, mdhd_spec(t.timescale, movie_duration) + track_hdlr_spec(t) + minf_spec(t));
    box_spec(TRAK@, tkhd_spec(t.track_id, movie_duration, t.width, t.height, is_audio_codec(t.codec)) + mdia)
}

fn build_sample_entry(ti: &TrackInfo) -> (r: Vec<u8>)
    ensures
        r@ == sample_entry_spec(ti@),
{
    match &ti.codec {
        CodecId::H264 => build_avc1(ti.width, ti.height, ti.codec_private.as_slice()),
        CodecId::Av1 => build_av01(ti.width, ti.height),
        CodecId::Aac => build_mp4a(ti.sample_rate, ti.channels),
        _ => build_av01(ti.width, ti.height),  // fallback
    }
}

fn build_minf(ti: &TrackInfo) -> (r: Vec<u8>)
    ensures
        r@ == minf_spec(ti@),
{
    let audio = matches!(ti.codec, CodecId::Aac | CodecId::Opus);
    let stbl = build_empty_stbl(build_sample_entry(ti));
    let dinf = build_dinf();
    let media_header = if audio {
        let z: [u8; 4] = [0u8; 4];
        proof {
            assert(z@ =~= zeros(4));
        }
        make_full_box(&SMHD, 0, 0, &z)  // balance=0, reserved

    } else {
        let z: [u8; 8] = [0u8; 8];
        proof {
            assert(z@ =~= zeros(8));
        }
        make_full_box(&VMHD, 0, 1, &z)  // graphicsMode=0, opcolor

    };
    let mut minf_payload: Vec<u8> = Vec::new();
    append(&mut minf_payload, media_header.as_slice());
    append(&mut minf_payload, dinf.as_slice());
    append(&mut minf_payload, stbl.as_slice());
    make_box(&MINF, minf_payload.as_slice())
}

pub fn build_trak(ti: &TrackInfo, movie_duration: u64) -> (r: Vec<u8>)
    ensures
        r@ == trak_spec(ti@, movie_duration),
{
    let audio = matches!(ti.codec, CodecId::Aac | CodecId::Opus);
    let tkhd = build_tkhd(ti.track_id, movie_duration, ti.width, ti.height, audio);
    let mdhd = build_mdhd(ti.timescale, movie_duration);
    let hdlr = if audio {
        build_hdlr(&SOUN, &SOUND_HANDLER)
    } else {
        build_hdlr(&VIDE, &VIDEO_HANDLER)
    };
    let minf = build_minf(ti);
    let mut mdia_payload: Vec<u8> = Vec::new();
    append(&mut mdia_payload, mdhd.as_slice());
    append(&mut mdia_payload, hdlr.as_slice());
    append(&mut mdia_payload, minf.as_slice());
    let mdia = make_box(&MDIA, mdia_payload.as_slice());
    let mut trak_payload: Vec<u8> = Vec::new();
    append(&mut trak_payload, tkhd.as_slice());
    append(&mut trak_payload, mdia.as_slice());
    make_box(&TRAK, trak_payload.as_slice())
}

// ── mvex ─────────────────────────────────────────────────────────────────────

/// One `trex` (track-extends defaults) for a track id.
pub open spec fn trex_spec(track_id: u32) -> Seq<u8> {
    full_box_spec(
        TREX@,
        0,
        0,
        be32_spec(track_id) + be32_spec(1) + be32_spec(0) + be32_spec(0) + be32_spec(0),
    )
}

/// The `trex` boxes of the first `n` tracks, in order.
pub open spec fn trex_list_spec(tracks: Seq<TrackView>, n: int) -> Seq<u8>
    decreases n,
{
    if n <= 0 {
        Seq::empty()
    } else {
        trex_list_spec(tracks, n - 1) + trex_spec(tracks[n - 1].track_id)
    }
}

pub open spec fn mvex_spec(tracks: Seq<TrackView>) -> Seq<u8> {
    box_spec(MVEX@, trex_list_spec(tracks, tracks.len() as int))
}

pub fn build_mvex(tracks: &[TrackInfo]) -> (r: Vec<u8>)
    ensures
        r@ == mvex_spec(track_views(tracks@)),
{
    let ghost tv = track_views(tracks@);
    let mut payload: Vec<u8> = Vec::new();
    let mut i: usize = 0;
    while i < tracks.len()
        invariant
            i <= tracks@.len(),
            tv == track_views(tracks@),
            payload@ == trex_list_spec(tv, i as int),
        decreases tracks@.len() - i,
    {
        let t = &tracks[i];
        let mut trex_payload: Vec<u8> = Vec::new();
        append(&mut trex_payload, &be32(t.track_id));
        append(&mut trex_payload, &be32(1));  // default_sample_description_index
        append(&mut trex_payload, &be32(0));  // default_sample_duration
        append(&mut trex_payload, &be32(0));  // default_sample_size
        append(&mut trex_payload, &be32(0));  // default_sample_flags
        let trex = make_full_box(&TREX, 0, 0, trex_payload.as_slice());
        append(&mut payload, trex.as_slice());
        proof {
            assert(trex_payload@ =~= be32_spec(t.track_id) + be32_spec(1) + be32_spec(0) + be32_spec(0)
                + be32_spec(0));
            assert(tv[i as int].track_id == t.track_id);
        }
        i = i + 1;
    }
    make_box(&MVEX, payload.as_slice())
}

// ── moof + mdat ──────────────────────────────────────────────────────────────

/// Whether converting `x` source ticks to the track timescale stays in `u64`.
pub open spec fn scale_fits(x: u64, timescale: u32, fps_num: u64, fps_den: u64) -> bool {
    fps_num == 0 || (x * fps_den <= u64::MAX && x * fps_den * timescale <= u64::MAX)
}

/// `x` source ticks (units of `fps_den / fps_num` s) in track timescale units,
/// truncated to 32 bits; the raw value when no frame rate is known.
pub open spec fn scale_pts_spec(x: u64, timescale: u32, fps_num: u64, fps_den: u64) -> u32 {
    if fps_num == 0 {
        x as u32
    } else {
        ((x * fps_den * timescale) / (fps_num as int)) as u32
    }
}

/// The source duration of sample `i`: the gap to the next packet's pts
/// (saturating), or for the last packet its own duration (at least 1).
pub open spec fn sample_ticks(pkts: Seq<PacketView>, i: int) -> u64 {
    if i + 1 < pkts.len() {
        if pkts[i + 1].pts >= pkts[i].pts {
            (pkts[i + 1].pts - pkts[i].pts) as u64
        } else {
            0
        }
    } else if pkts[i].duration >= 1 {
        pkts[i].duration
    } else {
        1
    }
}

/// Every sample duration of `pkts` can be scaled without overflow.
pub open spec fn fragment_scalable(pkts: Seq<PacketView>, timescale: u32, fps_num: u64, fps_den: u64) -> bool {
    forall|i: int| 0 <= i < pkts.len() ==> scale_fits(#[trigger] sample_ticks(pkts, i), timescale, fps_num, fps_den)
}

/// One `trun` sample record: duration (at least 1), size, flags, composition offset 0.
pub open spec fn trun_entry_spec(p: PacketView, dur: u32) -> Seq<u8> {
    be32_spec(if dur >= 1 { dur } else { 1 }) + be32_spec(p.data.len() as u32) + be32_spec(
        if p.is_keyframe {
            0x0200_0000u32
        } else {
            0x0100_0040u32
        },
    ) + be32_spec(0)
}

/// The `trun` records of the first `n` packets.
pub open spec fn trun_entries_spec(pkts: Seq<PacketView>, timescale: u32, fps_num: u64, fps_den: u64, n: int) -> Seq<u8>
    decreases n,
{
    if n <= 0 {
        Seq::empty()
    } else {
        trun_entries_spec(pkts, timescale, fps_num, fps_den, n - 1) + trun_entry_spec(
            pkts[n - 1],
            scale_pts_spec(sample_ticks(pkts, n - 1), timescale, fps_num, fps_den),
        )
    }
}

/// The payload bytes of the first `n` packets, concatenated.
pub open spec fn packet_data_spec(pkts: Seq<PacketView>, n: int) -> Seq<u8>
    decreases n,
{
    if n <= 0 {
        Seq::empty()
    } else {
        packet_data_spec(pkts, n - 1) + pkts[n - 1].data
    }
}

/// The `moof` box of a fragment whose `trun` data_offset field holds
/// `data_offset`: `mfhd`, then a `traf` holding `tfhd`, `tfdt` and `trun`.
#[verifier::opaque]
pub open spec fn moof_with_offset_spec(
    sequence_number: u32,
    track_id: u32,
    base_decode_time: u64,
    pkts: Seq<PacketView>,
    timescale: u32,
    fps_num: u64,
    fps_den: u64,
    data_offset: u32,
) -> Seq<u8> {
    let trun = full_box_spec(
        TRUN@,
        0,
        0x0000_0F01,
        be32_spec(pkts.len() as u32) + be32_spec(data_offset) + trun_entries_spec(
            pkts,
            timescale,
            fps_num,
            fps_den,
            pkts.len() as int,
        ),
    );
    let tfhd = full_box_spec(TFHD@, 0, 0x020000, be32_spec(track_id));
    let tfdt = full_box_spec(TFDT@, 1, 0, be64_spec(base_decode_time));
    let traf = box_spec(TRAF@, tfhd + tfdt + trun);
    box_spec(MOOF@, full_box_spec(MFHD@, 0, 0, be32_spec(sequence_number)) + traf)
}

/// The `moof` box of a fragment, with the `trun` data offset still zero.
pub open spec fn moof_spec(
    sequence_number: u32,
    track_id: u32,
    base_decode_time: u64,
    pkts: Seq<PacketView>,
    timescale: u32,
    fps_num: u64,
    fps_den: u64,
) -> Seq<u8> {
    moof_with_offset_spec(sequence_number, track_id, base_decode_time, pkts, timescale, fps_num, fps_den, 0)
}

/// The length field of the box starting at `pos`.
pub open spec fn box_len_at(s: Seq<u8>, pos: int) -> int {
    read_be32(s.subrange(pos, pos + 4))
}

/// Walking the boxes laid end to end in `s[pos..end]` (each one's length
/// field giving the next one's start), the start of the first whose fourcc
/// is `fourcc`; `None` when the walk leaves the range, meets a length below
/// 8 or one that runs past `end`, or finds none.
pub open spec fn find_child(s: Seq<u8>, pos: int, end: int, fourcc: Seq<u8>) -> Option<int>
    decreases end - pos,
{
    if pos < 0 || end > s.len() || pos + 8 > end {
        None
    } else if s.subrange(pos + 4, pos + 8) == fourcc {
        Some(pos)
    } else if box_len_at(s, pos) < 8 || pos + box_len_at(s, pos) > end {
        None
    } else {
        find_child(s, pos + box_len_at(s, pos), end, fourcc)
    }
}

/// The start of the `trun` box in a `moof`: the first `traf` among the
/// moof's children, then the first `trun` among the traf's children.
pub open spec fn trun_pos(moof: Seq<u8>) -> Option<int> {
    match find_child(moof, 8, moof.len() as int, TRAF@) {
        Some(t) => find_child(moof, t + 8, t + box_len_at(moof, t), TRUN@),
        None => None,
    }
}

/// `s` with the `trun` data_offset field (16 bytes into the `trun` box:
/// after its length, fourcc, version/flags and sample_count) replaced by
/// `be32(data_offset)`; `s` unchanged when no `trun` is found or the field
/// would run past the end.
pub open spec fn patch_trun_spec(s: Seq<u8>, data_offset: u32) -> Seq<u8> {
    match trun_pos(s) {
        Some(pos) => if pos + 20 <= s.len() {
            s.subrange(0, pos + 16) + be32_spec(data_offset) + s.subrange(pos + 20, s.len() as int)
        } else {
            s
        },
        None => s,
    }
}

/// A complete fragment: the patched `moof` followed by the `mdat`.
pub open spec fn moof_mdat_spec(
    sequence_number: u32,
    track_id: u32,
    base_decode_time: u64,
    pkts: Seq<PacketView>,
    timescale: u32,
    fps_num: u64,
    fps_den: u64,
) -> Seq<u8> {
    let moof = moof_spec(sequence_number, track_id, base_decode_time, pkts, timescale, fps_num, fps_den);
    patch_trun_spec(moof, (moof.len() + 8) as u32) + box_spec(MDAT@, packet_data_spec(pkts, pkts.len() as int))
}

/// The first box with fourcc `fourcc` among the boxes laid end to end in
/// `s[start..end]`.
fn find_child_box(s: &Vec<u8>, start: usize, end: usize, fourcc: &[u8; 4]) -> (r: Option<usize>)
    requires
        end <= s@.len(),
    ensures
        match r {
            Some(p) => find_child(s@, start as int, end as int, fourcc@) == Some(p as int),
            None => find_child(s@, start as int, end as int, fourcc@) is None,
        },
        r matches Some(p) ==> start <= p && p + 8 <= end,
{
    let mut pos = start;
    while pos <= end && end - pos >= 8
        invariant
            end <= s@.len(),
            start <= pos,
            find_child(s@, start as int, end as int, fourcc@) == find_child(s@, pos as int, end as int, fourcc@),
        decreases end - pos,
    {
        if s[pos + 4] == fourcc[0] && s[pos + 5] == fourcc[1] && s[pos + 6] == fourcc[2] && s[pos + 7]
            == fourcc[3] {
            assert(s@.subrange(pos + 4, pos + 8) =~= fourcc@);
            return Some(pos);
        }
        assert(s@.subrange(pos + 4, pos + 8) != fourcc@) by {
            if s@.subrange(pos + 4, pos + 8) == fourcc@ {
                assert(s@.subrange(pos + 4, pos + 8)[0] == s@[pos + 4]);
                assert(s@.subrange(pos + 4, pos + 8)[1] == s@[pos + 5]);
                assert(s@.subrange(pos + 4, pos + 8)[2] == s@[pos + 6]);
                assert(s@.subrange(pos + 4, pos + 8)[3] == s@[pos + 7]);
            }
        }
        let len = (s[pos] as u64) * 0x100_0000 + (s[pos + 1] as u64) * 0x1_0000 + (s[pos + 2] as u64) * 0x100
            + (s[pos + 3] as u64);
        assert(len == box_len_at(s@, pos as int));
        if len < 8 {
            return None;
        }
        if len > (end - pos) as u64 {
            // The box runs past the end of the range.
            return None;
        }
        pos = pos + len as usize;
    }
    None
}

/// Walk a `moof` box to find the `trun` full-box and patch its data_offset
/// field.
pub fn patch_trun_data_offset(moof: &mut Vec<u8>, data_offset: u32)
    ensures
        final(moof)@ == patch_trun_spec(old(moof)@, data_offset),
{
    let data = be32(data_offset);
    let n = moof.len();
    let traf = find_child_box(moof, 8, n, &TRAF);
    let t = match traf {
        Some(t) => t,
        None => return ,
    };
    // The traf's children run from its header's end to the end its length gives.
    let tlen = (moof[t] as u64) * 0x100_0000 + (moof[t + 1] as u64) * 0x1_0000 + (moof[t + 2] as u64) * 0x100
        + (moof[t + 3] as u64);
    assert(tlen == box_len_at(moof@, t as int));
    if tlen > (n - t) as u64 {
        // The traf claims to run past the moof: its children cannot be walked.
        assert(find_child(moof@, t + 8, t + tlen, TRUN@) is None);
        return ;
    }
    let tend = t + tlen as usize;
    let found = find_child_box(moof, t + 8, tend, &TRUN);
    // After the trun's length, fourcc, version/flags and sample_count.
    if let Some(pos) = found {
        if n - pos >= 20 {
            let off = pos + 16;
            let ghost before = moof@;
            moof.set(off, data[0]);
            moof.set(off + 1, data[1]);
            moof.set(off + 2, data[2]);
            moof.set(off + 3, data[3]);
            assert(moof@ =~= before.subrange(0, pos + 16) + be32_spec(data_offset) + before.subrange(
                pos + 20,
                before.len() as int,
            ));
        }
    }
}

/// The bytes of a fragment's `moof` before the `trun` data_offset field:
/// the moof, mfhd, traf, tfhd and tfdt boxes, then the trun's header and
/// sample count (84 bytes).
#[verifier::opaque]
pub open spec fn moof_head_spec(
    sequence_number: u32,
    track_id: u32,
    base_decode_time: u64,
    sample_count: u32,
    entries_len: int,
) -> Seq<u8> {
    let trun_len = (20 + entries_len) as u32;
    let traf_len = (8 + 16 + 20 + 20 + entries_len) as u32;
    let moof_len = (8 + 16 + 8 + 16 + 20 + 20 + entries_len) as u32;
    be32_spec(moof_len) + MOOF@ + full_box_spec(MFHD@, 0, 0, be32_spec(sequence_number)) + be32_spec(traf_len)
        + TRAF@ + full_box_spec(TFHD@, 0, 0x020000, be32_spec(track_id)) + full_box_spec(
        TFDT@,
        1,
        0,
        be64_spec(base_decode_time),
    ) + be32_spec(trun_len) + TRUN@ + seq![0u8] + be32_spec(0x0000_0F01u32 & 0x00FF_FFFFu32).subrange(1, 4)
        + be32_spec(sample_count)
}

/// A fragment's `moof` laid out flat: the head, the data_offset field, the
/// sample records.
#[verifier::spinoff_prover]
#[verifier::rlimit(40)]
proof fn lemma_moof_layout(
    sequence_number: u32,
    track_id: u32,
    base_decode_time: u64,
    pkts: Seq<PacketView>,
    timescale: u32,
    fps_num: u64,
    fps_den: u64,
    data_offset: u32,
)
    ensures
        ({
            let e = trun_entries_spec(pkts, timescale, fps_num, fps_den, pkts.len() as int);
            let head = moof_head_spec(sequence_number, track_id, base_decode_time, pkts.len() as u32, e.len() as int);
            &&& head.len() == 84
            &&& moof_with_offset_spec(
                sequence_number,
                track_id,
                base_decode_time,
                pkts,
                timescale,
                fps_num,
                fps_den,
                data_offset,
            ) == head + be32_spec(data_offset) + e
        }),
{
    let e = trun_entries_spec(pkts, timescale, fps_num, fps_den, pkts.len() as int);
    let head = moof_head_spec(sequence_number, track_id, base_decode_time, pkts.len() as u32, e.len() as int);
    let m = moof_with_offset_spec(
        sequence_number,
        track_id,
        base_decode_time,
        pkts,
        timescale,
        fps_num,
        fps_den,
        data_offset,
    );
    reveal(moof_head_spec);
    reveal(moof_with_offset_spec);
    assert(m =~= head + be32_spec(data_offset) + e);
}

/// Where the head of a fragment's `moof` holds the length fields and
/// fourccs the box walk reads.
#[verifier::spinoff_prover]
#[verifier::rlimit(40)]
proof fn lemma_moof_head_fields(
    sequence_number: u32,
    track_id: u32,
    base_decode_time: u64,
    sample_count: u32,
    entries_len: int,
)
    ensures
        ({
            let head = moof_head_spec(sequence_number, track_id, base_decode_time, sample_count, entries_len);
            &&& head.len() == 84
            &&& head.subrange(8, 12) == be32_spec(16)
            &&& head.subrange(12, 16) == MFHD@
            &&& head.subrange(24, 28) == be32_spec((8 + 16 + 20 + 20 + entries_len) as u32)
            &&& head.subrange(28, 32) == TRAF@
            &&& head.subrange(32, 36) == be32_spec(16)
            &&& head.subrange(36, 40) == TFHD@
            &&& head.subrange(48, 52) == be32_spec(20)
            &&& head.subrange(52, 56) == TFDT@
            &&& head.subrange(72, 76) == TRUN@
            &&& head.subrange(20, 24) == be32_spec(sequence_number)
            &&& head.subrange(44, 48) == be32_spec(track_id)
            &&& head.subrange(60, 68) == be64_spec(base_decode_time)
            &&& head.subrange(16, 20) == seq![0u8, 0u8, 0u8, 0u8]
            &&& head.subrange(40, 44) == seq![0u8, 0x02u8, 0u8, 0u8]
            &&& head.subrange(56, 60) == seq![1u8, 0u8, 0u8, 0u8]
            &&& head.subrange(76, 80) == seq![0u8, 0u8, 0x0Fu8, 0x01u8]
            &&& head.subrange(80, 84) == be32_spec(sample_count)
        }),
{
    let head = moof_head_spec(sequence_number, track_id, base_decode_time, sample_count, entries_len);
    reveal(moof_head_spec);
    lemma_fragment_flag_bytes();
    assert(head.subrange(16, 20) =~= seq![0u8, 0u8, 0u8, 0u8]);
    assert(head.subrange(40, 44) =~= seq![0u8, 0x02u8, 0u8, 0u8]);
    assert(head.subrange(56, 60) =~= seq![1u8, 0u8, 0u8, 0u8]);
    assert(head.subrange(76, 80) =~= seq![0u8, 0u8, 0x0Fu8, 0x01u8]);
    assert(head.subrange(80, 84) =~= be32_spec(sample_count));
    assert(head.subrange(20, 24) =~= be32_spec(sequence_number));
    assert(head.subrange(44, 48) =~= be32_spec(track_id));
    assert(head.subrange(60, 68) =~= be64_spec(base_decode_time));
    assert(head.subrange(8, 12) =~= be32_spec(16));
    assert(head.subrange(12, 16) =~= MFHD@);
    assert(head.subrange(24, 28) =~= be32_spec((8 + 16 + 20 + 20 + entries_len) as u32));
    assert(head.subrange(28, 32) =~= TRAF@);
    assert(head.subrange(32, 36) =~= be32_spec(16));
    assert(head.subrange(36, 40) =~= TFHD@);
    assert(head.subrange(48, 52) =~= be32_spec(20));
    assert(head.subrange(52, 56) =~= TFDT@);
    assert(head.subrange(72, 76) =~= TRUN@);
}

/// The box walk over a fragment's `moof` finds its `trun` 68 bytes in.
#[verifier::spinoff_prover]
#[verifier::rlimit(40)]
proof fn lemma_moof_walk(head: Seq<u8>, rest: Seq<u8>, entries_len: int)
    requires
        head.len() == 84,
        rest.len() == 4 + entries_len,
        entries_len >= 0,
        88 + entries_len <= u32::MAX,
        head.subrange(8, 12) == be32_spec(16),
        head.subrange(12, 16) == MFHD@,
        head.subrange(24, 28) == be32_spec((8 + 16 + 20 + 20 + entries_len) as u32),
        head.subrange(28, 32) == TRAF@,
        head.subrange(32, 36) == be32_spec(16),
        head.subrange(36, 40) == TFHD@,
        head.subrange(48, 52) == be32_spec(20),
        head.subrange(52, 56) == TFDT@,
        head.subrange(72, 76) == TRUN@,
    ensures
        trun_pos(head + rest) == Some(68int),
{
    let moof = head + rest;
    let len = moof.len() as int;
    assert forall|a: int, b: int| 0 <= a <= b <= 84 implies #[trigger] moof.subrange(a, b) == head.subrange(a, b) by {
        assert(moof.subrange(a, b) =~= head.subrange(a, b));
    }
    crate::bytes::lemma_be32_roundtrip(16);
    crate::bytes::lemma_be32_roundtrip(20);
    crate::bytes::lemma_be32_roundtrip((8 + 16 + 20 + 20 + entries_len) as u32);
    assert(MFHD@ != TRAF@) by {
        assert(MFHD@[0] != TRAF@[0]);
    }
    assert(TFHD@ != TRUN@) by {
        assert(TFHD@[1] != TRUN@[1]);
    }
    assert(TFDT@ != TRUN@) by {
        assert(TFDT@[1] != TRUN@[1]);
    }
    assert(moof.subrange(12, 16) == head.subrange(12, 16));
    assert(moof.subrange(8, 12) == head.subrange(8, 12));
    assert(box_len_at(moof, 8) == 16);
    assert(moof.subrange(28, 32) == head.subrange(28, 32));
    assert(find_child(moof, 24, len, TRAF@) == Some(24int));
    assert(find_child(moof, 8, len, TRAF@) == Some(24int));
    assert(moof.subrange(24, 28) == head.subrange(24, 28));
    assert(box_len_at(moof, 24) == len - 24);
    assert(moof.subrange(72, 76) == head.subrange(72, 76));
    assert(find_child(moof, 68, len, TRUN@) == Some(68int));
    assert(moof.subrange(48, 52) == head.subrange(48, 52));
    assert(moof.subrange(52, 56) == head.subrange(52, 56));
    assert(box_len_at(moof, 48) == 20);
    assert(find_child(moof, 48, len, TRUN@) == Some(68int));
    assert(moof.subrange(32, 36) == head.subrange(32, 36));
    assert(moof.subrange(36, 40) == head.subrange(36, 40));
    assert(box_len_at(moof, 32) == 16);
    assert(find_child(moof, 32, len, TRUN@) == Some(68int));
}

/// The box walk finds a fragment's `trun` 68 bytes into its `moof` (after
/// the moof header, mfhd, traf header, tfhd and tfdt), and patching sets
/// exactly its data_offset field: patching the moof built with data offset
/// 0 gives the moof built with the new offset, whose field reads it back.
#[verifier::spinoff_prover]
#[verifier::rlimit(40)]
pub proof fn law_trun_patch_sets_offset(
    sequence_number: u32,
    track_id: u32,
    base_decode_time: u64,
    pkts: Seq<PacketView>,
    timescale: u32,
    fps_num: u64,
    fps_den: u64,
    data_offset: u32,
)
    requires
        moof_spec(sequence_number, track_id, base_decode_time, pkts, timescale, fps_num, fps_den).len()
            <= u32::MAX,
    ensures
        ({
            let moof = moof_spec(sequence_number, track_id, base_decode_time, pkts, timescale, fps_num, fps_den);
            let patched = moof_with_offset_spec(
                sequence_number,
                track_id,
                base_decode_time,
                pkts,
                timescale,
                fps_num,
                fps_den,
                data_offset,
            );
            &&& trun_pos(moof) == Some(68int)
            &&& patch_trun_spec(moof, data_offset) == patched
            &&& patched.len() == moof.len()
            &&& read_be32(patched.subrange(84, 88)) == data_offset
        }),
{
    let e = trun_entries_spec(pkts, timescale, fps_num, fps_den, pkts.len() as int);
    let n = pkts.len() as u32;
    let head = moof_head_spec(sequence_number, track_id, base_decode_time, n, e.len() as int);
    lemma_moof_layout(sequence_number, track_id, base_decode_time, pkts, timescale, fps_num, fps_den, 0);
    lemma_moof_layout(sequence_number, track_id, base_decode_time, pkts, timescale, fps_num, fps_den, data_offset);
    lemma_moof_head_fields(sequence_number, track_id, base_decode_time, n, e.len() as int);
    let moof = head + be32_spec(0) + e;
    let patched = head + be32_spec(data_offset) + e;
    assert(moof =~= head + (be32_spec(0) + e));
    lemma_moof_walk(head, be32_spec(0) + e, e.len() as int);
    let len = moof.len() as int;
    assert(moof.subrange(0, 84) =~= head);
    assert(moof.subrange(88, len) =~= e);
    assert(patch_trun_spec(moof, data_offset) =~= patched);
    crate::bytes::lemma_be32_roundtrip(data_offset);
    assert(patched.subrange(84, 88) =~= be32_spec(data_offset));
}


/// The bytes of the two sample-flag words.
proof fn lemma_sample_flag_bytes()
    ensures
        be32_spec(0x0200_0000u32) == seq![0x02u8, 0x00u8, 0x00u8, 0x00u8],
        be32_spec(0x0100_0040u32) == seq![0x01u8, 0x00u8, 0x00u8, 0x40u8],
{
    let a: u32 = 0x0200_0000;
    let b: u32 = 0x0100_0040;
    assert((a >> 24u32) as u8 == 2u8 && (a >> 16u32) as u8 == 0u8 && (a >> 8u32) as u8 == 0u8 && a as u8 == 0u8
        && (b >> 24u32) as u8 == 1u8 && (b >> 16u32) as u8 == 0u8 && (b >> 8u32) as u8 == 0u8 && b as u8
        == 0x40u8) by (bit_vector)
        requires
            a == 0x0200_0000u32,
            b == 0x0100_0040u32,
    ;
    assert(be32_spec(a) =~= seq![0x02u8, 0x00u8, 0x00u8, 0x00u8]);
    assert(be32_spec(b) =~= seq![0x01u8, 0x00u8, 0x00u8, 0x40u8]);
}

/// The 24-bit flag fields of `mfhd`/`tfdt` (none), `tfhd`
/// (default-base-is-moof) and `trun` (data offset, duration, size, flags).
proof fn lemma_fragment_flag_bytes()
    ensures
        be32_spec(0u32 & 0x00FF_FFFFu32).subrange(1, 4) == seq![0u8, 0u8, 0u8],
        be32_spec(0x020000u32 & 0x00FF_FFFFu32).subrange(1, 4) == seq![0x02u8, 0u8, 0u8],
        be32_spec(0x0000_0F01u32 & 0x00FF_FFFFu32).subrange(1, 4) == seq![0u8, 0x0Fu8, 0x01u8],
{
    let a: u32 = 0u32 & 0x00FF_FFFFu32;
    let b: u32 = 0x020000u32 & 0x00FF_FFFFu32;
    let c: u32 = 0x0000_0F01u32 & 0x00FF_FFFFu32;
    assert((a >> 16u32) as u8 == 0u8 && (a >> 8u32) as u8 == 0u8 && a as u8 == 0u8 && (b >> 16u32) as u8 == 2u8
        && (b >> 8u32) as u8 == 0u8 && b as u8 == 0u8 && (c >> 16u32) as u8 == 0u8 && (c >> 8u32) as u8 == 0x0Fu8
        && c as u8 == 1u8) by (bit_vector)
        requires
            a == 0u32 & 0x00FF_FFFFu32,
            b == 0x020000u32 & 0x00FF_FFFFu32,
            c == 0x0000_0F01u32 & 0x00FF_FFFFu32,
    ;
    assert(be32_spec(a).subrange(1, 4) =~= seq![0u8, 0u8, 0u8]);
    assert(be32_spec(b).subrange(1, 4) =~= seq![0x02u8, 0u8, 0u8]);
    assert(be32_spec(c).subrange(1, 4) =~= seq![0u8, 0x0Fu8, 0x01u8]);
}

/// The sample records of the first `n` packets are 16 bytes each, record
/// `k` describing packet `k`.
proof fn lemma_trun_records(pkts: Seq<PacketView>, timescale: u32, fps_num: u64, fps_den: u64, n: int, k: int)
    requires
        0 <= k < n <= pkts.len(),
    ensures
        trun_entries_spec(pkts, timescale, fps_num, fps_den, n).len() == 16 * n,
        trun_entries_spec(pkts, timescale, fps_num, fps_den, n).subrange(16 * k, 16 * k + 16) == trun_entry_spec(
            pkts[k],
            scale_pts_spec(sample_ticks(pkts, k), timescale, fps_num, fps_den),
        ),
    decreases n,
{
    let e = trun_entries_spec(pkts, timescale, fps_num, fps_den, n);
    let prev = trun_entries_spec(pkts, timescale, fps_num, fps_den, n - 1);
    let last = trun_entry_spec(pkts[n - 1], scale_pts_spec(sample_ticks(pkts, n - 1), timescale, fps_num, fps_den));
    assert(last.len() == 16);
    if n - 1 > 0 {
        if k < n - 1 {
            lemma_trun_records(pkts, timescale, fps_num, fps_den, n - 1, k);
            assert(e.subrange(16 * k, 16 * k + 16) =~= prev.subrange(16 * k, 16 * k + 16));
        } else {
            lemma_trun_records(pkts, timescale, fps_num, fps_den, n - 1, 0);
            assert(e.subrange(16 * k, 16 * k + 16) =~= last);
        }
    } else {
        assert(prev.len() == 0);
        assert(e.subrange(16 * k, 16 * k + 16) =~= last);
    }
}

/// In a fragment, the sample record of packet `k` (16 bytes at 88 + 16k)
/// gives the packet's size, and flags it as a sync sample (`0x02000000`:
/// depends on no other sample) exactly when the packet is a keyframe, and
/// otherwise as a non-sync sample (`0x01000040`: depends on others, the
/// non-sync bit set).
pub proof fn law_trun_sample_flags(
    sequence_number: u32,
    track_id: u32,
    base_decode_time: u64,
    pkts: Seq<PacketView>,
    timescale: u32,
    fps_num: u64,
    fps_den: u64,
    k: int,
)
    requires
        moof_spec(sequence_number, track_id, base_decode_time, pkts, timescale, fps_num, fps_den).len()
            <= u32::MAX,
        0 <= k < pkts.len(),
    ensures
        ({
            let f = moof_mdat_spec(sequence_number, track_id, base_decode_time, pkts, timescale, fps_num, fps_den);
            &&& f.subrange(88 + 16 * k + 4, 88 + 16 * k + 8) == be32_spec(pkts[k].data.len() as u32)
            &&& f.subrange(88 + 16 * k + 8, 88 + 16 * k + 12) == if pkts[k].is_keyframe {
                seq![0x02u8, 0x00u8, 0x00u8, 0x00u8]
            } else {
                seq![0x01u8, 0x00u8, 0x00u8, 0x40u8]
            }
        }),
{
    let moof = moof_spec(sequence_number, track_id, base_decode_time, pkts, timescale, fps_num, fps_den);
    let off = (moof.len() + 8) as u32;
    law_trun_patch_sets_offset(sequence_number, track_id, base_decode_time, pkts, timescale, fps_num, fps_den, off);
    let e = trun_entries_spec(pkts, timescale, fps_num, fps_den, pkts.len() as int);
    let head = moof_head_spec(sequence_number, track_id, base_decode_time, pkts.len() as u32, e.len() as int);
    lemma_moof_layout(sequence_number, track_id, base_decode_time, pkts, timescale, fps_num, fps_den, off);
    lemma_trun_records(pkts, timescale, fps_num, fps_den, pkts.len() as int, k);
    let f = moof_mdat_spec(sequence_number, track_id, base_decode_time, pkts, timescale, fps_num, fps_den);
    let rec = trun_entry_spec(pkts[k], scale_pts_spec(sample_ticks(pkts, k), timescale, fps_num, fps_den));
    assert(f =~= head + be32_spec(off) + e + box_spec(MDAT@, packet_data_spec(pkts, pkts.len() as int)));
    assert(f.subrange(88 + 16 * k, 88 + 16 * k + 16) =~= e.subrange(16 * k, 16 * k + 16));
    assert(f.subrange(88 + 16 * k + 4, 88 + 16 * k + 8) =~= rec.subrange(4, 8));
    assert(f.subrange(88 + 16 * k + 8, 88 + 16 * k + 12) =~= rec.subrange(8, 12));
    lemma_sample_flag_bytes();
}

/// In a fragment, the duration field of sample `k` (bytes 88 + 16k ..
/// 92 + 16k) is, in track timescale units, the gap to the next packet's pts
/// (or, for the last packet, its own duration, at least 1) converted from
/// source ticks of `fps_den / fps_num` seconds: `ticks * fps_den *
/// timescale / fps_num`, kept to 32 bits and raised to at least 1.
pub proof fn law_trun_sample_durations(
    sequence_number: u32,
    track_id: u32,
    base_decode_time: u64,
    pkts: Seq<PacketView>,
    timescale: u32,
    fps_num: u64,
    fps_den: u64,
    k: int,
)
    requires
        moof_spec(sequence_number, track_id, base_decode_time, pkts, timescale, fps_num, fps_den).len()
            <= u32::MAX,
        0 <= k < pkts.len(),
        fps_num > 0,
    ensures
        ({
            let f = moof_mdat_spec(sequence_number, track_id, base_decode_time, pkts, timescale, fps_num, fps_den);
            let ticks: int = if k + 1 < pkts.len() {
                if pkts[k + 1].pts >= pkts[k].pts {
                    pkts[k + 1].pts - pkts[k].pts
                } else {
                    0
                }
            } else if pkts[k].duration >= 1 {
                pkts[k].duration as int
            } else {
                1
            };
            let d = ((ticks * fps_den * timescale) / (fps_num as int)) as u32;
            f.subrange(88 + 16 * k, 88 + 16 * k + 4) == be32_spec(if d >= 1 { d } else { 1 })
        }),
{
    let moof = moof_spec(sequence_number, track_id, base_decode_time, pkts, timescale, fps_num, fps_den);
    let off = (moof.len() + 8) as u32;
    law_trun_patch_sets_offset(sequence_number, track_id, base_decode_time, pkts, timescale, fps_num, fps_den, off);
    let e = trun_entries_spec(pkts, timescale, fps_num, fps_den, pkts.len() as int);
    let head = moof_head_spec(sequence_number, track_id, base_decode_time, pkts.len() as u32, e.len() as int);
    lemma_moof_layout(sequence_number, track_id, base_decode_time, pkts, timescale, fps_num, fps_den, off);
    lemma_trun_records(pkts, timescale, fps_num, fps_den, pkts.len() as int, k);
    let f = moof_mdat_spec(sequence_number, track_id, base_decode_time, pkts, timescale, fps_num, fps_den);
    let rec = trun_entry_spec(pkts[k], scale_pts_spec(sample_ticks(pkts, k), timescale, fps_num, fps_den));
    assert(f =~= head + be32_spec(off) + e + box_spec(MDAT@, packet_data_spec(pkts, pkts.len() as int)));
    assert(f.subrange(88 + 16 * k, 88 + 16 * k + 16) =~= e.subrange(16 * k, 16 * k + 16));
    assert(f.subrange(88 + 16 * k, 88 + 16 * k + 4) =~= rec.subrange(0, 4));
}

/// A fragment carries its header fields as given: the sequence number in
/// `mfhd` (bytes 20..24), the track id in `tfhd` (44..48) and the base decode
/// time in `tfdt` (60..68), each big-endian, whatever the packets; `tfhd`
/// is flagged default-base-is-moof (0x020000), and `trun` (flags 0x000F01:
/// data offset, duration, size and flags per sample) counts the packets.
pub proof fn law_fragment_headers(
    sequence_number: u32,
    track_id: u32,
    base_decode_time: u64,
    pkts: Seq<PacketView>,
    timescale: u32,
    fps_num: u64,
    fps_den: u64,
)
    requires
        moof_spec(sequence_number, track_id, base_decode_time, pkts, timescale, fps_num, fps_den).len()
            <= u32::MAX,
    ensures
        ({
            let f = moof_mdat_spec(sequence_number, track_id, base_decode_time, pkts, timescale, fps_num, fps_den);
            &&& f.subrange(20, 24) == be32_spec(sequence_number)
            &&& f.subrange(44, 48) == be32_spec(track_id)
            &&& f.subrange(60, 68) == be64_spec(base_decode_time)
            &&& f.subrange(40, 44) == seq![0u8, 0x02u8, 0u8, 0u8]
            &&& f.subrange(76, 80) == seq![0u8, 0u8, 0x0Fu8, 0x01u8]
            &&& f.subrange(80, 84) == be32_spec(pkts.len() as u32)
        }),
{
    let moof = moof_spec(sequence_number, track_id, base_decode_time, pkts, timescale, fps_num, fps_den);
    let off = (moof.len() + 8) as u32;
    law_trun_patch_sets_offset(sequence_number, track_id, base_decode_time, pkts, timescale, fps_num, fps_den, off);
    let e = trun_entries_spec(pkts, timescale, fps_num, fps_den, pkts.len() as int);
    let head = moof_head_spec(sequence_number, track_id, base_decode_time, pkts.len() as u32, e.len() as int);
    lemma_moof_layout(sequence_number, track_id, base_decode_time, pkts, timescale, fps_num, fps_den, off);
    lemma_moof_head_fields(sequence_number, track_id, base_decode_time, pkts.len() as u32, e.len() as int);
    let f = moof_mdat_spec(sequence_number, track_id, base_decode_time, pkts, timescale, fps_num, fps_den);
    let rest = be32_spec(off) + e + box_spec(MDAT@, packet_data_spec(pkts, pkts.len() as int));
    assert(f =~= head + rest);
    assert(f.subrange(20, 24) =~= head.subrange(20, 24));
    assert(f.subrange(44, 48) =~= head.subrange(44, 48));
    assert(f.subrange(60, 68) =~= head.subrange(60, 68));
    assert(f.subrange(40, 44) =~= head.subrange(40, 44));
    assert(f.subrange(76, 80) =~= head.subrange(76, 80));
    assert(f.subrange(80, 84) =~= head.subrange(80, 84));
}

/// Append `be32(v)` for the sample fields of one `trun` record.
fn append_trun_entry(out: &mut Vec<u8>, p: &EncodedPacket, dur: u32)
    ensures
        final(out)@ == old(out)@ + trun_entry_spec(p@, dur),
{
    let d = if dur >= 1 { dur } else { 1 };
    append(out, &be32(d));
    append(out, &be32(byte_len(p.data.as_slice()) as u32));
    append(out, &be32(if p.is_keyframe { 0x0200_0000u32 } else { 0x0100_0040u32 }));
    append(out, &be32(0));  // composition_offset = 0
    assert(final(out)@ =~= old(out)@ + trun_entry_spec(p@, dur));
}

fn scale_pts(x: u64, timescale: u32, fps_num: u64, fps_den: u64) -> (r: u32)
    requires
        scale_fits(x, timescale, fps_num, fps_den),
    ensures
        r == scale_pts_spec(x, timescale, fps_num, fps_den),
{
    if fps_num == 0 {
        return x as u32;
    }
    proof {
        vstd::arithmetic::mul::lemma_mul_nonnegative(x as int, fps_den as int);
    }
    let a = x * fps_den;
    let b = a * (timescale as u64);
    (b / fps_num) as u32
}

/// Build one fragment: `moof` (whose `trun` data offset points at the first
/// `mdat` payload byte) followed by `mdat`.
pub fn build_moof_mdat(
    sequence_number: u32,
    track_id: u32,
    base_decode_time: u64,
    packets: &[EncodedPacket],
    timescale: u32,
    src_fps_num: u64,
    src_fps_den: u64,
) -> (r: Vec<u8>)
    requires
        fragment_scalable(packet_views(packets@), timescale, src_fps_num, src_fps_den),
    ensures
        r@ == moof_mdat_spec(
            sequence_number,
            track_id,
            base_decode_time,
            packet_views(packets@),
            timescale,
            src_fps_num,
            src_fps_den,
        ),
{
    let ghost pv = packet_views(packets@);
    let n = packets.len();
    // Build trun entries: [duration, size, flags, composition_offset]
    let mut trun_entries: Vec<u8> = Vec::new();
    let mut mdat_payload: Vec<u8> = Vec::new();
    let mut i: usize = 0;
    while i < n
        invariant
            i <= n,
            n == packets@.len(),
            pv == packet_views(packets@),
            fragment_scalable(pv, timescale, src_fps_num, src_fps_den),
            trun_entries@ == trun_entries_spec(pv, timescale, src_fps_num, src_fps_den, i as int),
            mdat_payload@ == packet_data_spec(pv, i as int),
        decreases n - i,
    {
        let pkt = &packets[i];
        let ticks = if i + 1 < n {
            let next = packets[i + 1].pts;
            if next >= pkt.pts {
                next - pkt.pts
            } else {
                0
            }
        } else if pkt.duration >= 1 {
            pkt.duration
        } else {
            1
        };
        assert(ticks == sample_ticks(pv, i as int));
        assert(scale_fits(sample_ticks(pv, i as int), timescale, src_fps_num, src_fps_den));
        let dur = scale_pts(ticks, timescale, src_fps_num, src_fps_den);
        append_trun_entry(&mut trun_entries, pkt, dur);
        append(&mut mdat_payload, pkt.data.as_slice());
        assert(pv[i as int] == pkt@);
        i = i + 1;
    }
    // trun box
    let sample_count = n as u32;
    let mut tp: Vec<u8> = Vec::new();
    append(&mut tp, &be32(sample_count));
    append(&mut tp, &be32(0));  // data_offset placeholder (patched below)
    append(&mut tp, trun_entries.as_slice());
    // flags: data_offset, then per sample duration, size, flags and composition offset
    let trun = make_full_box(&TRUN, 0, 0x0000_0F01, tp.as_slice());
    // tfhd (default-base-is-moof flag)
    let tfhd = make_full_box(&TFHD, 0, 0x020000, &be32(track_id));
    // tfdt (track fragment decode time)
    let tfdt = make_full_box(&TFDT, 1, 0, &be64(base_decode_time));
    // traf
    let mut traf_payload: Vec<u8> = Vec::new();
    append(&mut traf_payload, tfhd.as_slice());
    append(&mut traf_payload, tfdt.as_slice());
    append(&mut traf_payload, trun.as_slice());
    let traf = make_box(&TRAF, traf_payload.as_slice());
    // mfhd
    let mfhd = make_full_box(&MFHD, 0, 0, &be32(sequence_number));
    // moof
    let mut moof_payload: Vec<u8> = Vec::new();
    append(&mut moof_payload, mfhd.as_slice());
    append(&mut moof_payload, traf.as_slice());
    let mut moof = make_box(&MOOF, moof_payload.as_slice());
    proof {
        assert(tp@ =~= be32_spec(pv.len() as u32) + be32_spec(0) + trun_entries_spec(
            pv,
            timescale,
            src_fps_num,
            src_fps_den,
            pv.len() as int,
        ));
        reveal(moof_with_offset_spec);
        assert(moof@ == moof_spec(
            sequence_number,
            track_id,
            base_decode_time,
            pv,
            timescale,
            src_fps_num,
            src_fps_den,
        ));
    }
    // The data offset runs from the start of moof to the first mdat payload
    // byte: moof.len() + 8 (mdat header).
    let data_offset = (byte_len(moof.as_slice()) + 8) as u32;
    patch_trun_data_offset(&mut moof, data_offset);
    // mdat
    let mdat = make_box(&MDAT, mdat_payload.as_slice());
    let mut out = moof;
    append(&mut out, mdat.as_slice());
    out
}


// ── moov / HLS init + segments ───────────────────────────────────────────────

/// The track timescale for a stream: fixed at 90 kHz for video and
/// 44.1 kHz for audio.
pub open spec fn stream_timescale(s: StreamInfo) -> u32 {
    if s.kind == StreamKind::Video {
        90_000
    } else {
        44100
    }
}

/// The track an fMP4 stream becomes: its `tkhd` (bytes 36..40 of the
/// `trak`) names track id `i + 1`, and its `mdhd` timescale (bytes
/// 148..152) is 90 000 Hz for a video stream and 44 100 Hz otherwise.
pub proof fn law_track_ids_and_timescales(s: StreamInfo, i: int, movie_duration: u64)
    requires
        0 <= i < u32::MAX,
    ensures
        ({
            let t = trak_spec(track_of_stream(s, i), movie_duration);
            &&& t.subrange(36, 40) == be32_spec((i + 1) as u32)
            &&& t.subrange(148, 152) == be32_spec(if s.kind == StreamKind::Video { 90_000u32 } else { 44_100u32 })
        }),
{
    let tv = track_of_stream(s, i);
    let tkhd = tkhd_spec(tv.track_id, movie_duration, tv.width, tv.height, is_audio_codec(tv.codec));
    let mdhd = mdhd_spec(tv.timescale, movie_duration);
    let rest = track_hdlr_spec(tv) + minf_spec(tv);
    let mdia = box_spec(MDIA@, mdhd + rest);
    let t = trak_spec(tv, movie_duration);
    assert(tkhd.len() == 104);
    assert(tkhd.subrange(28, 32) =~= be32_spec(tv.track_id));
    assert(mdhd.subrange(28, 32) =~= be32_spec(tv.timescale));
    assert(mdhd.len() >= 40);
    assert(t =~= box_spec(TRAK@, tkhd + mdia));
    assert(t.subrange(36, 40) =~= tkhd.subrange(28, 32));
    assert(mdia.subrange(8, 40) =~= mdhd.subrange(0, 32));
    assert(t.subrange(148, 152) =~= mdhd.subrange(28, 32));
}

/// The (empty) track a stream becomes; track ids are 1-based stream positions.
pub open spec fn track_of_stream(s: StreamInfo, i: int) -> TrackView {
    TrackView {
        track_id: (i + 1) as u32,
        timescale: stream_timescale(s),
        codec: s.codec,
        width: s.width,
        height: s.height,
        sample_rate: s.sample_rate,
        channels: s.channels as u32,
        codec_private: s.codec_private@,
        base_decode_time: 0,
        buffered: Seq::empty(),
    }
}

pub open spec fn tracks_of_streams(streams: Seq<StreamInfo>) -> Seq<TrackView> {
    Seq::new(streams.len(), |i: int| track_of_stream(streams[i], i))
}

/// The `trak` boxes of the first `n` tracks.
pub open spec fn traks_spec(tracks: Seq<TrackView>, n: int, movie_duration: u64) -> Seq<u8>
    decreases n,
{
    if n <= 0 {
        Seq::empty()
    } else {
        traks_spec(tracks, n - 1, movie_duration) + trak_spec(tracks[n - 1], movie_duration)
    }
}

/// The `moov` of a fragmented file: 90 kHz movie header, one `trak` per track
/// (duration 0), then `mvex`.
pub open spec fn moov_spec(tracks: Seq<TrackView>) -> Seq<u8> {
    box_spec(MOOV@, mvhd_spec(90_000, 0) + traks_spec(tracks, tracks.len() as int, 0) + mvex_spec(tracks))
}

/// An fMP4 init segment: `ftyp` + `moov`.
pub open spec fn init_segment_spec(streams: Seq<StreamInfo>) -> Seq<u8> {
    ftyp_spec() + moov_spec(tracks_of_streams(streams))
}

fn copy_bytes(v: &Vec<u8>) -> (r: Vec<u8>)
    ensures
        r@ == v@,
{
    let mut r: Vec<u8> = Vec::new();
    append(&mut r, v.as_slice());
    assert(r@ =~= v@);
    r
}

/// The empty tracks for `streams`.
pub fn tracks_from_streams(streams: &[StreamInfo]) -> (r: Vec<TrackInfo>)
    ensures
        track_views(r@) == tracks_of_streams(streams@),
{
    let mut tracks: Vec<TrackInfo> = Vec::new();
    let mut i: usize = 0;
    while i < streams.len()
        invariant
            i <= streams@.len(),
            tracks@.len() == i,
            forall|j: int| 0 <= j < i ==> (#[trigger] tracks@[j])@ == track_of_stream(streams@[j], j),
        decreases streams@.len() - i,
    {
        let s = &streams[i];
        let timescale = if s.is_video() {
            90_000u32
        } else {
            44100u32
        };
        let t = TrackInfo {
            track_id: (i + 1) as u32,
            timescale,
            codec: s.codec.copy(),
            width: s.width,
            height: s.height,
            sample_rate: s.sample_rate,
            channels: s.channels as u32,
            codec_private: copy_bytes(&s.codec_private),
            base_decode_time: 0,
            buffered: Vec::new(),
        };
        proof {
            assert(packet_views(t.buffered@) =~= Seq::<PacketView>::empty());
        }
        tracks.push(t);
        i = i + 1;
    }
    assert(track_views(tracks@) =~= tracks_of_streams(streams@));
    tracks
}

/// The `moov` box for `tracks`.
#[verifier::spinoff_prover]
pub fn build_moov(tracks: &[TrackInfo]) -> (r: Vec<u8>)
    ensures
        r@ == moov_spec(track_views(tracks@)),
{
    let ghost tv = track_views(tracks@);
    let mut moov_payload = build_mvhd(90_000, 0);
    let ghost mvhd = moov_payload@;
    let mut i: usize = 0;
    while i < tracks.len()
        invariant
            i <= tracks@.len(),
            tv == track_views(tracks@),
            mvhd == mvhd_spec(90_000, 0),
            moov_payload@ == mvhd + traks_spec(tv, i as int, 0),
        decreases tracks@.len() - i,
    {
        let trak = build_trak(&tracks[i], 0);
        append(&mut moov_payload, trak.as_slice());
        assert(tv[i as int] == tracks@[i as int]@);
        assert(moov_payload@ =~= mvhd + traks_spec(tv, i + 1, 0));
        i = i + 1;
    }
    let mvex = build_mvex(tracks);
    append(&mut moov_payload, mvex.as_slice());
    make_box(&MOOV, moov_payload.as_slice())
}

/// Build an fMP4 init segment (`ftyp` + `moov`) as raw bytes.
///
/// Used by an HLS segmenter to write the `#EXT-X-MAP` init file once, then
/// write each segment as an independent `moof`+`mdat` pair (via
/// [`build_fmp4_segment`]).
pub fn build_fmp4_init(streams: &[StreamInfo]) -> (r: Vec<u8>)
    ensures
        r@ == init_segment_spec(streams@),
{
    let tracks = tracks_from_streams(streams);
    let ftyp = build_ftyp();
    let moov = build_moov(tracks.as_slice());
    let mut out = ftyp;
    append(&mut out, moov.as_slice());
    out
}

/// Build one fMP4 media segment (`moof`+`mdat`) for use in HLS.
///
/// `sequence_number` must increase monotonically across all segments.
/// `base_decode_time` is in the track timescale (90 000 Hz for video).
pub fn build_fmp4_segment(
    sequence_number: u32,
    track_id: u32,
    timescale: u32,
    base_decode_time: u64,
    packets: &[EncodedPacket],
    fps_num: u64,
    fps_den: u64,
) -> (r: Vec<u8>)
    requires
        fragment_scalable(packet_views(packets@), timescale, fps_num, fps_den),
    ensures
        r@ == moof_mdat_spec(
            sequence_number,
            track_id,
            base_decode_time,
            packet_views(packets@),
            timescale,
            fps_num,
            fps_den,
        ),
{
    build_moof_mdat(sequence_number, track_id, base_decode_time, packets, timescale, fps_num, fps_den)
}

// ── FMp4Muxer ────────────────────────────────────────────────────────────────

/// The sum of the durations (each at least 1) of the first `n` packets.
pub open spec fn duration_sum(pkts: Seq<PacketView>, n: int) -> int
    decreases n,
{
    if n <= 0 {
        0
    } else {
        duration_sum(pkts, n - 1) + if pkts[n - 1].duration >= 1 {
            pkts[n - 1].duration as int
        } else {
            1
        }
    }
}

/// The decode time a flushed fragment advances its track by.
pub open spec fn fragment_advance(t: TrackView, fps_num: u64, fps_den: u64) -> int {
    let total = duration_sum(t.buffered, t.buffered.len() as int);
    if fps_num > 0 {
        (total * fps_den * t.timescale) / (fps_num as int)
    } else {
        total
    }
}

/// Writing `pkts` as fragment `sequence_number` of a track with `timescale`
/// and decode time `base_decode_time` stays within the integer widths (the
/// arithmetic the fragment and its bookkeeping perform does not overflow).
pub open spec fn fragment_fits(
    pkts: Seq<PacketView>,
    timescale: u32,
    base_decode_time: u64,
    fps_num: u64,
    fps_den: u64,
    sequence_number: u32,
) -> bool {
    let total = duration_sum(pkts, pkts.len() as int);
    pkts.len() > 0 ==> {
        &&& sequence_number < u32::MAX
        &&& fragment_scalable(pkts, timescale, fps_num, fps_den)
        &&& total <= u64::MAX
        &&& (fps_num > 0 ==> total * fps_den <= u64::MAX && total * fps_den * timescale <= u64::MAX)
        &&& base_decode_time + (if fps_num > 0 {
            (total * fps_den * timescale) / (fps_num as int)
        } else {
            total
        }) <= u64::MAX
    }
}

/// Flushing `t` as fragment `sequence_number` stays within the integer widths.
pub open spec fn flush_fits(t: TrackView, fps_num: u64, fps_den: u64, sequence_number: u32) -> bool {
    fragment_fits(t.buffered, t.timescale, t.base_decode_time, fps_num, fps_den, sequence_number)
}

/// Whether [`fragment_fits`] holds.
pub fn check_fragment_fits(
    pkts: &[EncodedPacket],
    timescale: u32,
    base_decode_time: u64,
    fps_num: u64,
    fps_den: u64,
    sequence_number: u32,
) -> (r: bool)
    ensures
        r == fragment_fits(packet_views(pkts@), timescale, base_decode_time, fps_num, fps_den, sequence_number),
{
    let ghost pv = packet_views(pkts@);
    let n = pkts.len();
    if n == 0 {
        return true;
    }
    if sequence_number == u32::MAX {
        return false;
    }
    let mut i: usize = 0;
    while i < n
        invariant
            i <= n,
            n == pkts@.len(),
            pv == packet_views(pkts@),
            forall|j: int| 0 <= j < i ==> scale_fits(#[trigger] sample_ticks(pv, j), timescale, fps_num, fps_den),
        decreases n - i,
    {
        let pkt = &pkts[i];
        let ticks = if i + 1 < n {
            let next = pkts[i + 1].pts;
            if next >= pkt.pts {
                next - pkt.pts
            } else {
                0
            }
        } else if pkt.duration >= 1 {
            pkt.duration
        } else {
            1
        };
        assert(ticks == sample_ticks(pv, i as int));
        if fps_num != 0 {
            match ticks.checked_mul(fps_den) {
                None => {
                    return false;
                },
                Some(a) => {
                    if a.checked_mul(timescale as u64).is_none() {
                        return false;
                    }
                },
            }
        }
        i = i + 1;
    }
    let mut total: u64 = 0;
    let mut k: usize = 0;
    while k < n
        invariant
            k <= n,
            n == pkts@.len(),
            pv == packet_views(pkts@),
            total == duration_sum(pv, k as int),
        decreases n - k,
    {
        let d = pkts[k].duration;
        match total.checked_add(if d >= 1 { d } else { 1 }) {
            None => {
                proof {
                    lemma_duration_sum_monotone(pv, k + 1, n as int);
                }
                return false;
            },
            Some(t) => {
                total = t;
            },
        }
        k = k + 1;
    }
    let scaled = if fps_num > 0 {
        match total.checked_mul(fps_den) {
            None => {
                return false;
            },
            Some(a) => match a.checked_mul(timescale as u64) {
                None => {
                    return false;
                },
                Some(b) => b / fps_num,
            },
        }
    } else {
        total
    };
    base_decode_time.checked_add(scaled).is_some()
}

/// The plain-value state of an [`FMp4Muxer`].
pub ghost struct FMp4State {
    pub tracks: Seq<TrackView>,
    pub sequence_number: u32,
    pub fps_num: u64,
    pub fps_den: u64,
    pub fragment_size: nat,
}

/// `t` after its buffered packets were written out as a fragment.
pub open spec fn flushed_track(t: TrackView, fps_num: u64, fps_den: u64) -> TrackView {
    TrackView {
        base_decode_time: (t.base_decode_time + fragment_advance(t, fps_num, fps_den)) as u64,
        buffered: Seq::empty(),
        ..t
    }
}

/// Fragmented MP4 muxer: decides when fragments are cut and what bytes they
/// hold; the caller writes the returned bytes in order.
pub struct FMp4Muxer {
    tracks: Vec<TrackInfo>,
    sequence_number: u32,
    fps_num: u64,
    fps_den: u64,
    /// Flush a new fragment after this many packets (per track).
    fragment_size: usize,
}

impl View for FMp4Muxer {
    type V = FMp4State;

    closed spec fn view(&self) -> FMp4State {
        FMp4State {
            tracks: track_views(self.tracks@),
            sequence_number: self.sequence_number,
            fps_num: self.fps_num,
            fps_den: self.fps_den,
            fragment_size: self.fragment_size as nat,
        }
    }
}

proof fn lemma_duration_sum_monotone(pkts: Seq<PacketView>, i: int, n: int)
    requires
        0 <= i <= n,
    ensures
        duration_sum(pkts, i) <= duration_sum(pkts, n),
    decreases n - i,
{
    if i < n {
        lemma_duration_sum_monotone(pkts, i, n - 1);
    }
}

impl FMp4Muxer {
    /// Create a new fMP4 muxer for `streams` with video time base
    /// `fps_den / fps_num` seconds per tick.
    pub fn new(streams: &[StreamInfo], fps_num: u64, fps_den: u64) -> (r: Result<Self, Error>)
        ensures
            r matches Ok(m) && m@ == (FMp4State {
                tracks: tracks_of_streams(streams@),
                sequence_number: 1,
                fps_num,
                fps_den,
                fragment_size: 30,
            }),
    {
        let tracks = tracks_from_streams(streams);
        Ok(FMp4Muxer { tracks, sequence_number: 1, fps_num, fps_den, fragment_size: 30 })
    }

    /// The bytes that start the file: `ftyp` + `moov`.
    pub fn write_header(&self) -> (r: Vec<u8>)
        ensures
            r@ == ftyp_spec() + moov_spec(self@.tracks),
    {
        let ftyp = build_ftyp();
        let moov = build_moov(self.tracks.as_slice());
        let mut out = ftyp;
        append(&mut out, moov.as_slice());
        out
    }

    /// Write out track `track_idx`'s buffered packets as one fragment (nothing
    /// when it holds none).
    fn flush_fragment(&mut self, track_idx: usize) -> (out: Vec<u8>)
        requires
            track_idx < old(self)@.tracks.len(),
            flush_fits(old(self)@.tracks[track_idx as int], old(self)@.fps_num, old(self)@.fps_den, old(self)@.sequence_number),
        ensures
            ({
                let t = old(self)@.tracks[track_idx as int];
                if t.buffered.len() == 0 {
                    out@ == Seq::<u8>::empty() && final(self)@ == old(self)@
                } else {
                    &&& out@ == moof_mdat_spec(
                        old(self)@.sequence_number,
                        t.track_id,
                        t.base_decode_time,
                        t.buffered,
                        t.timescale,
                        old(self)@.fps_num,
                        old(self)@.fps_den,
                    )
                    &&& final(self)@ == FMp4State {
                        tracks: old(self)@.tracks.update(
                            track_idx as int,
                            flushed_track(t, old(self)@.fps_num, old(self)@.fps_den),
                        ),
                        sequence_number: (old(self)@.sequence_number + 1) as u32,
                        ..old(self)@
                    }
                }
            }),
    {
        if self.tracks[track_idx].buffered.len() == 0 {
            return Vec::new();
        }
        let ghost old_tracks = track_views(self.tracks@);
        let t = self.tracks.remove(track_idx);
        let ghost tv = t@;
        assert(tv == old_tracks[track_idx as int]);
        let TrackInfo {
            track_id,
            timescale,
            codec,
            width,
            height,
            sample_rate,
            channels,
            codec_private,
            base_decode_time,
            buffered,
        } = t;
        let seq = self.sequence_number;
        self.sequence_number = seq + 1;
        // Advance base_decode_time by the total duration of the flushed packets.
        let ghost pv = packet_views(buffered@);
        let mut total: u64 = 0;
        let mut i: usize = 0;
        while i < buffered.len()
            invariant
                i <= buffered@.len(),
                pv == packet_views(buffered@),
                pv == tv.buffered,
                total == duration_sum(pv, i as int),
                duration_sum(pv, pv.len() as int) <= u64::MAX,
            decreases buffered@.len() - i,
        {
            proof {
                lemma_duration_sum_monotone(pv, i + 1, pv.len() as int);
            }
            let d = buffered[i].duration;
            total = total + if d >= 1 { d } else { 1 };
            i = i + 1;
        }
        let scaled_dur = if self.fps_num > 0 {
            proof {
                vstd::arithmetic::mul::lemma_mul_nonnegative(total as int, self.fps_den as int);
            }
            total * self.fps_den * (timescale as u64) / self.fps_num
        } else {
            total
        };
        let fragment = build_moof_mdat(
            seq,
            track_id,
            base_decode_time,
            buffered.as_slice(),
            timescale,
            self.fps_num,
            self.fps_den,
        );
        let nt = TrackInfo {
            track_id,
            timescale,
            codec,
            width,
            height,
            sample_rate,
            channels,
            codec_private,
            base_decode_time: base_decode_time + scaled_dur,
            buffered: Vec::new(),
        };
        proof {
            assert(total == duration_sum(tv.buffered, tv.buffered.len() as int));
            assert(scaled_dur == fragment_advance(tv, self.fps_num, self.fps_den));
            assert(packet_views(nt.buffered@) =~= Seq::<PacketView>::empty());
            assert(nt@ == flushed_track(tv, self.fps_num, self.fps_den));
        }
        self.tracks.insert(track_idx, nt);
        assert(track_views(self.tracks@) =~= old_tracks.update(
            track_idx as int,
            flushed_track(tv, self.fps_num, self.fps_den),
        ));
        fragment
    }

    /// Whether [`Self::write_packet`] may be called with `packet` (its
    /// fragment arithmetic would not overflow).
    pub fn can_write(&self, packet: &EncodedPacket) -> (r: bool)
        ensures
            r == write_fits(self@, packet@),
    {
        let idx = packet.stream_index;
        if idx >= self.tracks.len() {
            return true;
        }
        let t = &self.tracks[idx];
        if self.fragment_size > 0 && t.buffered.len() < self.fragment_size - 1 {
            proof {
                assert(pushed_track(self@.tracks[idx as int], packet@).buffered.len() == t.buffered@.len() + 1);
            }
            return true;
        }
        let mut pkts: Vec<EncodedPacket> = Vec::new();
        let mut i: usize = 0;
        while i < t.buffered.len()
            invariant
                i <= t.buffered@.len(),
                pkts@.len() == i,
                forall|j: int| 0 <= j < i ==> (#[trigger] pkts@[j])@ == t.buffered@[j]@,
            decreases t.buffered@.len() - i,
        {
            pkts.push(t.buffered[i].copy());
            i = i + 1;
        }
        pkts.push(packet.copy());
        proof {
            assert(packet_views(pkts@) =~= packet_views(t.buffered@).push(packet@));
            assert(packet_views(pkts@) =~= pushed_track(self@.tracks[idx as int], packet@).buffered);
            assert(self@.tracks[idx as int] == t@);
        }
        check_fragment_fits(
            pkts.as_slice(),
            t.timescale,
            t.base_decode_time,
            self.fps_num,
            self.fps_den,
            self.sequence_number,
        )
    }

    /// Whether [`Self::write_trailer`] may be called (no fragment arithmetic
    /// would overflow).
    pub fn can_finish(&self) -> (r: bool)
        ensures
            r == trailer_fits(self@),
    {
        let ghost st = self@;
        let mut seq: u64 = self.sequence_number as u64;
        let mut i: usize = 0;
        while i < self.tracks.len()
            invariant
                i <= self.tracks@.len(),
                st == self@,
                seq == trailer_sequence(st, i as int),
                seq <= u32::MAX,
                forall|j: int|
                    0 <= j < i && (#[trigger] st.tracks[j]).buffered.len() > 0 ==> {
                        &&& trailer_sequence(st, j) < u32::MAX
                        &&& flush_fits(st.tracks[j], st.fps_num, st.fps_den, trailer_sequence(st, j) as u32)
                    },
            decreases self.tracks@.len() - i,
        {
            let t = &self.tracks[i];
            proof {
                lemma_nonempty_before_step(st.tracks, i as int);
                assert(st.tracks[i as int] == t@);
            }
            if t.buffered.len() > 0 {
                if seq >= u32::MAX as u64 {
                    return false;
                }
                if !check_fragment_fits(
                    t.buffered.as_slice(),
                    t.timescale,
                    t.base_decode_time,
                    self.fps_num,
                    self.fps_den,
                    seq as u32,
                ) {
                    return false;
                }
                seq = seq + 1;
            }
            i = i + 1;
        }
        true
    }

    /// Buffer `packet` on its track; once the track holds `fragment_size`
    /// packets they are written out as one fragment, whose bytes are returned
    /// (nothing is returned otherwise).
    pub fn write_packet(&mut self, packet: &EncodedPacket) -> (r: Result<Vec<u8>, Error>)
        requires
            write_fits(old(self)@, packet@),
        ensures
            packet.stream_index >= old(self)@.tracks.len() ==> {
                &&& r matches Err(Error::Video(m)) && m@ == "fmp4: stream index "@ + decimal_spec(
                    packet.stream_index as nat,
                ) + " out of range"@
                &&& final(self)@ == old(self)@
            },
            packet.stream_index < old(self)@.tracks.len() ==> {
                let st = old(self)@;
                let t = pushed_track(st.tracks[packet.stream_index as int], packet@);
                if t.buffered.len() >= st.fragment_size {
                    &&& r matches Ok(b) && b@ == moof_mdat_spec(
                        st.sequence_number,
                        t.track_id,
                        t.base_decode_time,
                        t.buffered,
                        t.timescale,
                        st.fps_num,
                        st.fps_den,
                    )
                    &&& final(self)@ == FMp4State {
                        tracks: st.tracks.update(
                            packet.stream_index as int,
                            flushed_track(t, st.fps_num, st.fps_den),
                        ),
                        sequence_number: (st.sequence_number + 1) as u32,
                        ..st
                    }
                } else {
                    &&& r matches Ok(b) && b@ == Seq::<u8>::empty()
                    &&& final(self)@ == FMp4State {
                        tracks: st.tracks.update(packet.stream_index as int, t),
                        ..st
                    }
                }
            },
    {
        let idx = packet.stream_index;
        if idx >= self.tracks.len() {
            return Err(Error::Video(message_with_number("fmp4: stream index ", idx, " out of range")));
        }
        let ghost old_tracks = track_views(self.tracks@);
        let mut t = self.tracks.remove(idx);
        let ghost t0 = t@;
        t.buffered.push(packet.copy());
        let n = t.buffered.len();
        proof {
            assert(packet_views(t.buffered@) =~= t0.buffered.push(packet@));
            assert(t@ == pushed_track(t0, packet@));
        }
        self.tracks.insert(idx, t);
        assert(track_views(self.tracks@) =~= old_tracks.update(idx as int, pushed_track(t0, packet@)));
        if n >= self.fragment_size {
            let out = self.flush_fragment(idx);
            proof {
                assert(old_tracks.update(idx as int, pushed_track(t0, packet@)).update(
                    idx as int,
                    flushed_track(pushed_track(t0, packet@), self.fps_num, self.fps_den),
                ) =~= old_tracks.update(
                    idx as int,
                    flushed_track(pushed_track(t0, packet@), self.fps_num, self.fps_den),
                ));
            }
            Ok(out)
        } else {
            Ok(Vec::new())
        }
    }

    /// Write out every track's remaining packets (track order), returning the
    /// bytes that end the file.
    pub fn write_trailer(&mut self) -> (r: Result<Vec<u8>, Error>)
        requires
            trailer_fits(old(self)@),
        ensures
            ({
                let st = old(self)@;
                &&& r matches Ok(b) && b@ == trailer_spec(st, st.tracks.len() as int)
                &&& final(self)@ == FMp4State {
                    tracks: flushed_prefix(st, st.tracks.len() as int),
                    sequence_number: (st.sequence_number + nonempty_before(st.tracks, st.tracks.len() as int)) as u32,
                    ..st
                }
            }),
    {
        let out = self.flush_all();
        Ok(out)
    }

    #[verifier::rlimit(40)]
    fn flush_all(&mut self) -> (out: Vec<u8>)
        requires
            trailer_fits(old(self)@),
        ensures
            ({
                let st = old(self)@;
                &&& out@ == trailer_spec(st, st.tracks.len() as int)
                &&& final(self)@ == FMp4State {
                    tracks: flushed_prefix(st, st.tracks.len() as int),
                    sequence_number: (st.sequence_number + nonempty_before(st.tracks, st.tracks.len() as int)) as u32,
                    ..st
                }
            }),
    {
        let ghost st = self@;
        let mut out: Vec<u8> = Vec::new();
        let mut i: usize = 0;
        proof {
            assert(flushed_prefix(st, 0) =~= st.tracks);
        }
        while i < self.tracks.len()
            invariant
                i <= self@.tracks.len(),
                self@.tracks.len() == st.tracks.len(),
                trailer_fits(st),
                self@ == (FMp4State {
                    tracks: flushed_prefix(st, i as int),
                    sequence_number: (st.sequence_number + nonempty_before(st.tracks, i as int)) as u32,
                    ..st
                }),
                st.sequence_number + nonempty_before(st.tracks, i as int) <= u32::MAX,
                out@ == trailer_spec(st, i as int),
            decreases st.tracks.len() - i,
        {
            proof {
                lemma_nonempty_before_step(st.tracks, i as int);
                assert(self@.tracks[i as int] == st.tracks[i as int]);
                if st.tracks[i as int].buffered.len() > 0 {
                    assert(trailer_sequence(st, i as int) < u32::MAX);
                }
            }
            let ghost before = self@;
            let bytes = self.flush_fragment(i);
            append(&mut out, bytes.as_slice());
            proof {
                if st.tracks[i as int].buffered.len() == 0 {
                    lemma_flushed_empty(st.tracks[i as int], st.fps_num, st.fps_den);
                }
                assert(self@.tracks =~= flushed_prefix(st, i + 1));
                assert(self@.sequence_number == (st.sequence_number + nonempty_before(st.tracks, i + 1)) as u32);
                assert(self@ == (FMp4State {
                    tracks: flushed_prefix(st, i + 1),
                    sequence_number: (st.sequence_number + nonempty_before(st.tracks, i + 1)) as u32,
                    ..st
                }));
            }
            i = i + 1;
        }
        out
    }
}

/// `t` with `p` appended to its buffer.
pub open spec fn pushed_track(t: TrackView, p: PacketView) -> TrackView {
    TrackView { buffered: t.buffered.push(p), ..t }
}

/// Buffering `p` in `st` (and the flush it may trigger) stays within the
/// integer widths.
pub open spec fn write_fits(st: FMp4State, p: PacketView) -> bool {
    p.stream_index < st.tracks.len() ==> {
        let t = pushed_track(st.tracks[p.stream_index as int], p);
        t.buffered.len() >= st.fragment_size ==> flush_fits(t, st.fps_num, st.fps_den, st.sequence_number)
    }
}

/// How many of the first `n` tracks hold buffered packets.
pub open spec fn nonempty_before(tracks: Seq<TrackView>, n: int) -> int
    decreases n,
{
    if n <= 0 {
        0
    } else {
        nonempty_before(tracks, n - 1) + if tracks[n - 1].buffered.len() > 0 {
            1int
        } else {
            0
        }
    }
}

/// The sequence number track `i`'s fragment gets when all tracks are flushed.
pub open spec fn trailer_sequence(st: FMp4State, i: int) -> int {
    st.sequence_number + nonempty_before(st.tracks, i)
}

/// Flushing every track in order stays within the integer widths.
pub open spec fn trailer_fits(st: FMp4State) -> bool {
    forall|i: int|
        0 <= i < st.tracks.len() && (#[trigger] st.tracks[i]).buffered.len() > 0 ==> {
            &&& trailer_sequence(st, i) < u32::MAX
            &&& flush_fits(st.tracks[i], st.fps_num, st.fps_den, trailer_sequence(st, i) as u32)
        }
}

/// The tracks after the first `n` were flushed.
pub open spec fn flushed_prefix(st: FMp4State, n: int) -> Seq<TrackView> {
    Seq::new(
        st.tracks.len(),
        |j: int|
            if j < n {
                flushed_track(st.tracks[j], st.fps_num, st.fps_den)
            } else {
                st.tracks[j]
            },
    )
}

/// The fragments of the first `n` tracks when all tracks are flushed in order.
pub open spec fn trailer_spec(st: FMp4State, n: int) -> Seq<u8>
    decreases n,
{
    if n <= 0 {
        Seq::empty()
    } else {
        let t = st.tracks[n - 1];
        trailer_spec(st, n - 1) + if t.buffered.len() > 0 {
            moof_mdat_spec(
                trailer_sequence(st, n - 1) as u32,
                t.track_id,
                t.base_decode_time,
                t.buffered,
                t.timescale,
                st.fps_num,
                st.fps_den,
            )
        } else {
            Seq::empty()
        }
    }
}

proof fn lemma_nonempty_before_step(tracks: Seq<TrackView>, i: int)
    requires
        0 <= i,
    ensures
        nonempty_before(tracks, i) >= 0,
        nonempty_before(tracks, i + 1) == nonempty_before(tracks, i) + if tracks[i].buffered.len() > 0 {
            1int
        } else {
            0
        },
    decreases i,
{
    if i > 0 {
        lemma_nonempty_before_step(tracks, i - 1);
    }
}

proof fn lemma_flushed_empty(t: TrackView, fps_num: u64, fps_den: u64)
    requires
        t.buffered.len() == 0,
    ensures
        flushed_track(t, fps_num, fps_den) == t,
{
    assert(duration_sum(t.buffered, 0) == 0);
    assert(fragment_advance(t, fps_num, fps_den) == 0) by {
        if fps_num > 0 {
            vstd::arithmetic::div_mod::lemma_basic_div(0, fps_num as int);
        }
    }
    assert(t.buffered =~= Seq::<PacketView>::empty());
}

/// The state and output of `write_packet` taking `p`, whose stream is
/// known, in state `st`, as its contract states them.
pub open spec fn fmp4_write_step(st: FMp4State, p: PacketView) -> (FMp4State, Seq<u8>) {
    let idx = p.stream_index as int;
    let t = pushed_track(st.tracks[idx], p);
    if t.buffered.len() >= st.fragment_size {
        (
            FMp4State {
                tracks: st.tracks.update(idx, flushed_track(t, st.fps_num, st.fps_den)),
                sequence_number: (st.sequence_number + 1) as u32,
                ..st
            },
            moof_mdat_spec(
                st.sequence_number,
                t.track_id,
                t.base_decode_time,
                t.buffered,
                t.timescale,
                st.fps_num,
                st.fps_den,
            ),
        )
    } else {
        (FMp4State { tracks: st.tracks.update(idx, t), ..st }, Seq::empty())
    }
}

/// The state and the bytes returned, end to end, after `write_packet` has
/// taken each of `pkts` in order, starting from `st`.
pub open spec fn fmp4_run(st: FMp4State, pkts: Seq<PacketView>) -> (FMp4State, Seq<u8>)
    decreases pkts.len(),
{
    if pkts.len() == 0 {
        (st, Seq::empty())
    } else {
        let (s1, out1) = fmp4_run(st, pkts.drop_last());
        let (s2, out2) = fmp4_write_step(s1, pkts.last());
        (s2, out1 + out2)
    }
}

/// The state of a fresh muxer over `streams`.
pub open spec fn fmp4_fresh(streams: Seq<StreamInfo>, fps_num: u64, fps_den: u64) -> FMp4State {
    FMp4State { tracks: tracks_of_streams(streams), sequence_number: 1, fps_num, fps_den, fragment_size: 30 }
}

/// Fewer than thirty packets of one stream written to a fresh muxer are
/// only buffered: nothing comes back, and the stream's track holds them.
proof fn lemma_fmp4_buffers(streams: Seq<StreamInfo>, fps_num: u64, fps_den: u64, i: int, pkts: Seq<PacketView>, k: int)
    requires
        0 <= i < streams.len(),
        0 <= k <= pkts.len(),
        k < 30,
        forall|j: int| 0 <= j < pkts.len() ==> (#[trigger] pkts[j]).stream_index == i,
    ensures
        ({
            let fresh = fmp4_fresh(streams, fps_num, fps_den);
            fmp4_run(fresh, pkts.take(k)) == (
                FMp4State {
                    tracks: fresh.tracks.update(i, TrackView { buffered: pkts.take(k), ..fresh.tracks[i] }),
                    ..fresh
                },
                Seq::<u8>::empty(),
            )
        }),
    decreases k,
{
    let fresh = fmp4_fresh(streams, fps_num, fps_den);
    if k == 0 {
        assert(fresh.tracks[i] == track_of_stream(streams[i], i));
        assert(fresh.tracks[i].buffered =~= pkts.take(0));
        assert(TrackView { buffered: pkts.take(0), ..fresh.tracks[i] } == fresh.tracks[i]);
        assert(fresh.tracks.update(i, TrackView { buffered: pkts.take(0), ..fresh.tracks[i] }) =~= fresh.tracks);
    } else {
        lemma_fmp4_buffers(streams, fps_num, fps_den, i, pkts, k - 1);
        assert(pkts.take(k).drop_last() =~= pkts.take(k - 1));
        assert(pkts.take(k - 1).push(pkts[k - 1]) =~= pkts.take(k));
        let s1 = FMp4State {
            tracks: fresh.tracks.update(i, TrackView { buffered: pkts.take(k - 1), ..fresh.tracks[i] }),
            ..fresh
        };
        let t = pushed_track(s1.tracks[i], pkts[k - 1]);
        assert(t == TrackView { buffered: pkts.take(k), ..fresh.tracks[i] });
        assert(s1.tracks.update(i, t) =~= fresh.tracks.update(i, TrackView { buffered: pkts.take(k), ..fresh.tracks[i] }));
        assert(Seq::<u8>::empty() + Seq::<u8>::empty() =~= Seq::<u8>::empty());
    }
}

/// A fresh muxer cuts its first fragment at the thirtieth packet of a
/// stream: the first twenty-nine give back nothing, and the thirtieth gives
/// back one `moof` + `mdat` with sequence number 1, the stream's track id
/// (its 1-based position), decode time 0 and the stream's timescale,
/// holding all thirty packets in order.
pub proof fn law_fmp4_first_fragment(
    streams: Seq<StreamInfo>,
    fps_num: u64,
    fps_den: u64,
    i: int,
    pkts: Seq<PacketView>,
)
    requires
        0 <= i < streams.len(),
        pkts.len() == 30,
        forall|j: int| 0 <= j < pkts.len() ==> (#[trigger] pkts[j]).stream_index == i,
    ensures
        fmp4_run(fmp4_fresh(streams, fps_num, fps_den), pkts.take(29)).1 == Seq::<u8>::empty(),
        fmp4_run(fmp4_fresh(streams, fps_num, fps_den), pkts).1 == moof_mdat_spec(
            1,
            (i + 1) as u32,
            0,
            pkts,
            stream_timescale(streams[i]),
            fps_num,
            fps_den,
        ),
{
    let fresh = fmp4_fresh(streams, fps_num, fps_den);
    lemma_fmp4_buffers(streams, fps_num, fps_den, i, pkts, 29);
    assert(pkts.drop_last() =~= pkts.take(29));
    assert(pkts.take(29).push(pkts[29]) =~= pkts);
    let s1 = FMp4State {
        tracks: fresh.tracks.update(i, TrackView { buffered: pkts.take(29), ..fresh.tracks[i] }),
        ..fresh
    };
    let t = pushed_track(s1.tracks[i], pkts[29]);
    assert(t.buffered =~= pkts);
    assert(Seq::<u8>::empty() + fmp4_write_step(s1, pkts[29]).1 =~= fmp4_write_step(s1, pkts[29]).1);
}

} // verus!
