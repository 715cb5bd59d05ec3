//! Progressive (non-fragmented) MP4 muxer — `ftyp` + `moov` (with real `stbl`
//! sample tables) + `mdat`. Unlike the fragmented muxer (`moof`/`trun`, for
//! streaming/HLS), this produces a plain MP4 that general players parse
//! directly.
//!
//! Video-only, single track (AV1 or H.264). Samples are buffered in memory and
//! the whole file is produced by [`Mp4Muxer::finish`]; the chunk offset is
//! back-patched once the `moov` size is known.

use vstd::prelude::*;

use crate::bytes::{append, be32, be32_spec, be64_spec, byte_len, zeros};
use crate::error::Error;
use crate::text::push_char;
use crate::video::{CodecId, EncodedPacket, PacketView, StreamInfo, StreamKind};
use vstd::string::StringExecFns;
use super::boxes::{
    av01_spec, avc1_spec, box_spec, build_av01, build_avc1, build_ftyp, build_hdlr, build_mdhd,
    build_mvhd, build_tkhd, ftyp_spec, full_box_spec, hdlr_spec, make_box, make_full_box, mdhd_spec,
    mvhd_spec, tkhd_spec,
};
use super::fmp4::{build_dinf, dinf_spec, packet_data_spec};
use super::fourcc::{
    MDAT, MDIA, MINF, MOOV, STBL, STCO, STSC, STSD, STSS, STSZ, STTS, TRAK, VIDE, VIDEO_HANDLER, VMHD,
};

verus! {

/// Size and sync flag of one buffered sample.
#[derive(Clone, Copy)]
pub struct SampleMeta {
    pub size: u32,
    pub is_keyframe: bool,
}

/// The plain-value state of an [`Mp4Muxer`].
pub ghost struct Mp4State {
    pub width: u32,
    pub height: u32,
    pub codec: CodecId,
    pub codec_private: Seq<u8>,
    pub fps_num: u64,
    pub fps_den: u64,
    pub samples: Seq<SampleMeta>,
    pub mdat: Seq<u8>,
}

/// Concatenated big-endian encodings of the first `n` values.
pub open spec fn be32_list_spec(s: Seq<u32>, n: int) -> Seq<u8>
    decreases n,
{
    if n <= 0 {
        Seq::empty()
    } else {
        be32_list_spec(s, n - 1) + be32_spec(s[n - 1])
    }
}

/// The 1-based numbers of the sync samples among the first `n` samples.
pub open spec fn sync_sample_numbers(samples: Seq<SampleMeta>, n: int) -> Seq<u32>
    decreases n,
{
    if n <= 0 {
        Seq::empty()
    } else if samples[n - 1].is_keyframe {
        sync_sample_numbers(samples, n - 1).push(((n - 1) as u32 + 1) as u32)
    } else {
        sync_sample_numbers(samples, n - 1)
    }
}

/// The `stss` entries: the sync samples, or sample 1 when there are samples
/// but none is marked sync.
pub open spec fn stss_entries(samples: Seq<SampleMeta>) -> Seq<u32> {
    let idx = sync_sample_numbers(samples, samples.len() as int);
    if idx.len() == 0 && (samples.len() as u32) > 0 {
        seq![1u32]
    } else {
        idx
    }
}

/// The sample sizes.
pub open spec fn sample_sizes(samples: Seq<SampleMeta>) -> Seq<u32> {
    samples.map_values(|s: SampleMeta| s.size)
}

/// The sample entry of the track (only AV1 and H.264 are supported).
pub open spec fn progressive_entry_spec(st: Mp4State) -> Seq<u8> {
    if st.codec is Av1 {
        av01_spec(st.width, st.height)
    } else {
        avc1_spec(st.width, st.height, st.codec_private)
    }
}

/// Sample tables: every sample in one chunk at `chunk_offset`, constant
/// duration `fps_den`.
pub open spec fn progressive_stbl_spec(st: Mp4State, chunk_offset: u32) -> Seq<u8> {
    let n = st.samples.len() as u32;
    let stss = stss_entries(st.samples);
    box_spec(
        STBL@,
        full_box_spec(STSD@, 0, 0, be32_spec(1) + progressive_entry_spec(st)) + full_box_spec(
            STTS@,
            0,
            0,
            be32_spec(1) + be32_spec(n) + be32_spec(st.fps_den as u32),
        ) + full_box_spec(STSS@, 0, 0, be32_spec(stss.len() as u32) + be32_list_spec(stss, stss.len() as int))
            + full_box_spec(STSC@, 0, 0, be32_spec(1) + be32_spec(1) + be32_spec(n) + be32_spec(1))
            + full_box_spec(
            STSZ@,
            0,
            0,
            be32_spec(0) + be32_spec(n) + be32_list_spec(sample_sizes(st.samples), st.samples.len() as int),
        ) + full_box_spec(STCO@, 0, 0, be32_spec(1) + be32_spec(chunk_offset)),
    )
}

/// Movie duration in track timescale units.
pub open spec fn progressive_duration(st: Mp4State) -> u64 {
    ((st.samples.len() as u32) as u64 * st.fps_den) as u64
}

#[verifier::opaque]
pub open spec fn progressive_moov_spec(st: Mp4State, chunk_offset: u32) -> Seq<u8> {
    let timescale = st.fps_num as u32;
    let duration = progressive_duration(st);
    let minf = box_spec(
        MINF@,
        full_box_spec(VMHD@, 0, 1, zeros(8)) + dinf_spec() + progressive_stbl_spec(st, chunk_offset),
    );
    let mdia = box_spec(MDIA@, mdhd_spec(timescale, duration) + hdlr_spec(VIDE@, VIDEO_HANDLER@) + minf);
    let trak = box_spec(TRAK@, tkhd_spec(1, duration, st.width, st.height, false) + mdia);
    box_spec(MOOV@, mvhd_spec(timescale, duration) + trak)
}

/// The chunk offset: where the `mdat` payload starts.
pub open spec fn progressive_chunk_offset(st: Mp4State) -> u32 {
    (ftyp_spec().len() + progressive_moov_spec(st, 0).len() + 8) as u32
}

/// The finished file.
pub open spec fn progressive_file_spec(st: Mp4State) -> Seq<u8> {
    ftyp_spec() + progressive_moov_spec(st, progressive_chunk_offset(st)) + be32_spec(
        (8 + st.mdat.len()) as u32,
    ) + MDAT@ + st.mdat
}

/// Whether the codec has a progressive sample entry.
pub open spec fn progressive_codec_supported(codec: CodecId) -> bool {
    codec is Av1 || codec is H264
}

/// The arithmetic `finish` performs on `st` stays within the integer widths.
pub open spec fn finish_fits(st: Mp4State) -> bool {
    &&& (st.samples.len() as u32) as u64 * st.fps_den <= u64::MAX
    &&& forall|i: int|
        0 <= i < st.samples.len() && (#[trigger] st.samples[i]).is_keyframe ==> (i as u32) < u32::MAX
}

/// A progressive MP4 muxer for a single video track.
pub struct Mp4Muxer {
    stream: StreamInfo,
    fps_num: u64,
    fps_den: u64,
    samples: Vec<SampleMeta>,
    mdat: Vec<u8>,
}

impl View for Mp4Muxer {
    type V = Mp4State;

    closed spec fn view(&self) -> Mp4State {
        Mp4State {
            width: self.stream.width,
            height: self.stream.height,
            codec: self.stream.codec,
            codec_private: self.stream.codec_private@,
            fps_num: self.fps_num,
            fps_den: self.fps_den,
            samples: self.samples@,
            mdat: self.mdat@,
        }
    }
}

fn append_be32_list(out: &mut Vec<u8>, s: &Vec<u32>)
    ensures
        final(out)@ == old(out)@ + be32_list_spec(s@, s@.len() as int),
{
    let ghost start = out@;
    let mut i: usize = 0;
    while i < s.len()
        invariant
            i <= s@.len(),
            out@ == start + be32_list_spec(s@, i as int),
        decreases s@.len() - i,
    {
        append(out, &be32(s[i]));
        assert(out@ =~= start + be32_list_spec(s@, i + 1));
        i = i + 1;
    }
}

impl Mp4Muxer {
    /// Create a muxer for `stream` (must be a video stream) at `fps_num/fps_den`.
    pub fn new(stream: StreamInfo, fps_num: u64, fps_den: u64) -> (r: Result<Self, Error>)
        ensures
            stream.kind != StreamKind::Video ==> (r matches Err(Error::Video(m)) && m@
                == "Mp4Muxer: expected a video stream"@),
            stream.kind == StreamKind::Video ==> (r matches Ok(m) && m@ == (Mp4State {
                width: stream.width,
                height: stream.height,
                codec: stream.codec,
                codec_private: stream.codec_private@,
                fps_num: if fps_num >= 1 {
                    fps_num
                } else {
                    1
                },
                fps_den: if fps_den >= 1 {
                    fps_den
                } else {
                    1
                },
                samples: Seq::empty(),
                mdat: Seq::empty(),
            })),
    {
        if !stream.is_video() {
            return Err(Error::Video(String::from_str("Mp4Muxer: expected a video stream")));
        }
        let fps_num = if fps_num >= 1 { fps_num } else { 1 };
        let fps_den = if fps_den >= 1 { fps_den } else { 1 };
        Ok(Mp4Muxer { stream, fps_num, fps_den, samples: Vec::new(), mdat: Vec::new() })
    }

    /// Buffer one encoded video packet as a sample.
    pub fn write_packet(&mut self, pkt: &EncodedPacket) -> (r: Result<(), Error>)
        ensures
            r is Ok,
            final(self)@ == (Mp4State {
                samples: old(self)@.samples.push(
                    SampleMeta { size: pkt.data@.len() as u32, is_keyframe: pkt.is_keyframe },
                ),
                mdat: old(self)@.mdat + pkt.data@,
                ..old(self)@
            }),
    {
        let size = byte_len(pkt.data.as_slice()) as u32;
        self.samples.push(SampleMeta { size, is_keyframe: pkt.is_keyframe });
        append(&mut self.mdat, pkt.data.as_slice());
        Ok(())
    }

    fn build_stss(&self) -> (r: Vec<u8>)
        requires
            finish_fits(self@),
        ensures
            r@ == full_box_spec(
                STSS@,
                0,
                0,
                be32_spec(stss_entries(self@.samples).len() as u32) + be32_list_spec(
                    stss_entries(self@.samples),
                    stss_entries(self@.samples).len() as int,
                ),
            ),
    {
        let ghost sv = self@.samples;
        let mut idx: Vec<u32> = Vec::new();
        let mut i: usize = 0;
        while i < self.samples.len()
            invariant
                i <= self.samples@.len(),
                sv == self@.samples,
                finish_fits(self@),
                idx@ == sync_sample_numbers(sv, i as int),
            decreases self.samples@.len() - i,
        {
            if self.samples[i].is_keyframe {
                assert(sv[i as int].is_keyframe);
                idx.push(i as u32 + 1);
            }
            i = i + 1;
        }
        let n = self.samples.len() as u32;
        if idx.len() == 0 && n > 0 {
            idx.push(1);  // guarantee at least one sync sample
            assert(idx@ =~= seq![1u32]);
        }
        let mut p: Vec<u8> = Vec::new();
        append(&mut p, &be32(idx.len() as u32));
        append_be32_list(&mut p, &idx);
        make_full_box(&STSS, 0, 0, p.as_slice())
    }

    fn build_stsz(&self) -> (r: Vec<u8>)
        ensures
            r@ == full_box_spec(
                STSZ@,
                0,
                0,
                be32_spec(0) + be32_spec(self@.samples.len() as u32) + be32_list_spec(
                    sample_sizes(self@.samples),
                    self@.samples.len() as int,
                ),
            ),
    {
        let mut sizes: Vec<u32> = Vec::new();
        let mut i: usize = 0;
        while i < self.samples.len()
            invariant
                i <= self.samples@.len(),
                sizes@ == sample_sizes(self@.samples).take(i as int),
            decreases self.samples@.len() - i,
        {
            sizes.push(self.samples[i].size);
            i = i + 1;
            assert(sizes@ =~= sample_sizes(self@.samples).take(i as int));
        }
        assert(sizes@ =~= sample_sizes(self@.samples));
        let mut p: Vec<u8> = Vec::new();
        append(&mut p, &be32(0));  // sample_size = 0 → per-sample sizes follow
        append(&mut p, &be32(self.samples.len() as u32));
        append_be32_list(&mut p, &sizes);
        make_full_box(&STSZ, 0, 0, p.as_slice())
    }

    fn build_stbl(&self, sample_entry: &Vec<u8>, chunk_offset: u32) -> (r: Vec<u8>)
        requires
            finish_fits(self@),
            progressive_codec_supported(self@.codec),
            sample_entry@ == progressive_entry_spec(self@),
        ensures
            r@ == progressive_stbl_spec(self@, chunk_offset),
    {
        let n = self.samples.len() as u32;
        let mut p: Vec<u8> = Vec::new();
        append(&mut p, &be32(1));
        append(&mut p, sample_entry.as_slice());
        let stsd = make_full_box(&STSD, 0, 0, p.as_slice());
        let mut q: Vec<u8> = Vec::new();
        append(&mut q, &be32(1));
        append(&mut q, &be32(n));
        append(&mut q, &be32(self.fps_den as u32));
        let stts = make_full_box(&STTS, 0, 0, q.as_slice());
        let stss = self.build_stss();
        // one chunk holding all samples
        let mut c: Vec<u8> = Vec::new();
        append(&mut c, &be32(1));
        append(&mut c, &be32(1));  // first_chunk
        append(&mut c, &be32(n));  // samples_per_chunk
        append(&mut c, &be32(1));  // sample_description_index
        let stsc = make_full_box(&STSC, 0, 0, c.as_slice());
        let stsz = self.build_stsz();
        let mut o: Vec<u8> = Vec::new();
        append(&mut o, &be32(1));
        append(&mut o, &be32(chunk_offset));
        let stco = make_full_box(&STCO, 0, 0, o.as_slice());
        let mut stbl: Vec<u8> = Vec::new();
        append(&mut stbl, stsd.as_slice());
        append(&mut stbl, stts.as_slice());
        append(&mut stbl, stss.as_slice());
        append(&mut stbl, stsc.as_slice());
        append(&mut stbl, stsz.as_slice());
        append(&mut stbl, stco.as_slice());
        proof {
            assert(q@ =~= be32_spec(1) + be32_spec(n) + be32_spec(self@.fps_den as u32));
            assert(c@ =~= be32_spec(1) + be32_spec(1) + be32_spec(n) + be32_spec(1));
            assert(o@ =~= be32_spec(1) + be32_spec(chunk_offset));
        }
        make_box(&STBL, stbl.as_slice())
    }

    fn build_moov(&self, sample_entry: &Vec<u8>, chunk_offset: u32) -> (r: Vec<u8>)
        requires
            finish_fits(self@),
            progressive_codec_supported(self@.codec),
            sample_entry@ == progressive_entry_spec(self@),
        ensures
            r@ == progressive_moov_spec(self@, chunk_offset),
    {
        let n = self.samples.len() as u32;
        let timescale = self.fps_num as u32;
        let duration = n as u64 * self.fps_den;
        let (w, h) = (self.stream.width, self.stream.height);
        let stbl = self.build_stbl(sample_entry, chunk_offset);
        let z: [u8; 8] = [0u8; 8];
        proof {
            assert(z@ =~= zeros(8));
        }
        let vmhd = make_full_box(&VMHD, 0, 1, &z);
        let dinf = build_dinf();
        let mut minf_p = vmhd;
        append(&mut minf_p, dinf.as_slice());
        append(&mut minf_p, stbl.as_slice());
        let minf = make_box(&MINF, minf_p.as_slice());
        let mut mdia_p = build_mdhd(timescale, duration);
        let hdlr = build_hdlr(&VIDE, &VIDEO_HANDLER);
        append(&mut mdia_p, hdlr.as_slice());
        append(&mut mdia_p, minf.as_slice());
        let mdia = make_box(&MDIA, mdia_p.as_slice());
        let mut trak_p = build_tkhd(1, duration, w, h, false);
        append(&mut trak_p, mdia.as_slice());
        let trak = make_box(&TRAK, trak_p.as_slice());
        let mut moov_p = build_mvhd(timescale, duration);
        append(&mut moov_p, trak.as_slice());
        proof {
            reveal(progressive_moov_spec);
        }
        make_box(&MOOV, moov_p.as_slice())
    }

    /// Finalize: the whole file, `ftyp` + `moov` + `mdat`.
    pub fn finish(self) -> (r: Result<Vec<u8>, Error>)
        requires
            finish_fits(self@),
        ensures
            progressive_codec_supported(self@.codec) ==> (r matches Ok(b) && b@ == progressive_file_spec(self@)),
            !progressive_codec_supported(self@.codec) ==> (r matches Err(Error::Video(m)) && m@
                == "Mp4Muxer: unsupported codec "@ + self@.codec.spec_name()),
    {
        let (w, h) = (self.stream.width, self.stream.height);
        let sample_entry = match self.stream.codec {
            CodecId::Av1 => build_av01(w, h),
            CodecId::H264 => build_avc1(w, h, self.stream.codec_private.as_slice()),
            ref other => {
                let mut m = String::from_str("Mp4Muxer: unsupported codec ");
                let name = other.name();
                m.append(name.as_str());
                return Err(Error::Video(m));
            },
        };
        // `stco` size is fixed regardless of the offset value, so build the moov
        // once with a placeholder to measure it, then again with the real offset.
        let ftyp = build_ftyp();
        let moov0 = self.build_moov(&sample_entry, 0);
        // mdat payload begins after ftyp + moov + the 8-byte mdat box header.
        let chunk_offset = (byte_len(ftyp.as_slice()) as u64 + byte_len(moov0.as_slice()) as u64 + 8) as u32;
        let moov = self.build_moov(&sample_entry, chunk_offset);
        let mut out = ftyp;
        append(&mut out, moov.as_slice());
        let mdat_total = (8 + byte_len(self.mdat.as_slice())) as u32;
        append(&mut out, &be32(mdat_total));
        append(&mut out, &MDAT);
        append(&mut out, self.mdat.as_slice());
        proof {
            assert(chunk_offset == progressive_chunk_offset(self@));
        }
        Ok(out)
    }
}

/// The muxer's state after `write_packet` has taken each of `pkts` in
/// order, starting from `st`, as each call's contract states the step.
pub open spec fn mp4_after(st: Mp4State, pkts: Seq<PacketView>) -> Mp4State
    decreases pkts.len(),
{
    if pkts.len() == 0 {
        st
    } else {
        let prev = mp4_after(st, pkts.drop_last());
        let p = pkts.last();
        Mp4State {
            samples: prev.samples.push(SampleMeta { size: p.data.len() as u32, is_keyframe: p.is_keyframe }),
            mdat: prev.mdat + p.data,
            ..prev
        }
    }
}

/// A box's payload follows its 8-byte header.
proof fn lemma_box_payload(fourcc: Seq<u8>, payload: Seq<u8>)
    requires
        fourcc.len() == 4,
    ensures
        box_spec(fourcc, payload).len() == payload.len() + 8,
        box_spec(fourcc, payload).subrange(8, payload.len() as int + 8) == payload,
{
    assert(box_spec(fourcc, payload).subrange(8, payload.len() as int + 8) =~= payload);
}

/// Where `mvhd` and `mdhd` (version 1) keep their timescale and duration.
proof fn lemma_header_clock(timescale: u32, duration: u64)
    ensures
        mvhd_spec(timescale, duration).len() == 120,
        mvhd_spec(timescale, duration).subrange(28, 32) == be32_spec(timescale),
        mvhd_spec(timescale, duration).subrange(32, 40) == be64_spec(duration),
        mdhd_spec(timescale, duration).subrange(28, 32) == be32_spec(timescale),
        mdhd_spec(timescale, duration).subrange(32, 40) == be64_spec(duration),
        mdhd_spec(timescale, duration).len() >= 40,
{
    let mv = mvhd_spec(timescale, duration);
    let md = mdhd_spec(timescale, duration);
    assert(mv.subrange(28, 32) =~= be32_spec(timescale));
    assert(mv.subrange(32, 40) =~= be64_spec(duration));
    assert(md.subrange(28, 32) =~= be32_spec(timescale));
    assert(md.subrange(32, 40) =~= be64_spec(duration));
}

/// The `tkhd` box (version 1) is 104 bytes long.
proof fn lemma_tkhd_len(track_id: u32, duration: u64, width: u32, height: u32)
    ensures
        tkhd_spec(track_id, duration, width, height, false).len() == 104,
{
}

/// In `moov(mvhd + trak(tkhd + mdia(mdhd + hdlr + minf)))`, where `mvhd` and
/// `mdhd` sit and what bytes of them land where.
proof fn lemma_moov_layout(mvhd: Seq<u8>, tkhd: Seq<u8>, mdhd: Seq<u8>, hdlr: Seq<u8>, minf: Seq<u8>)
    requires
        mvhd.len() == 120,
        tkhd.len() == 104,
        mdhd.len() >= 40,
    ensures
        ({
            let m = box_spec(MOOV@, mvhd + box_spec(TRAK@, tkhd + box_spec(MDIA@, mdhd + hdlr + minf)));
            &&& m.subrange(36, 40) == mvhd.subrange(28, 32)
            &&& m.subrange(40, 48) == mvhd.subrange(32, 40)
            &&& m.subrange(276, 280) == mdhd.subrange(28, 32)
            &&& m.subrange(280, 288) == mdhd.subrange(32, 40)
        }),
{
    let mdia = box_spec(MDIA@, mdhd + hdlr + minf);
    let trak = box_spec(TRAK@, tkhd + mdia);
    let m = box_spec(MOOV@, mvhd + trak);
    assert(m.subrange(36, 40) =~= mvhd.subrange(28, 32));
    assert(m.subrange(40, 48) =~= mvhd.subrange(32, 40));
    assert(m.subrange(276, 280) =~= mdhd.subrange(28, 32));
    assert(m.subrange(280, 288) =~= mdhd.subrange(32, 40));
}

/// The progressive movie's clock: the `mvhd` timescale (bytes 36..40 of the
/// `moov`) and the `mdhd` timescale (bytes 276..280) are the frame-rate
/// numerator, so that a sample's duration of `fps_den` ticks lasts one frame
/// period; and both durations (bytes 40..48 and 280..288) are the sample
/// count times `fps_den`, i.e. `samples * fps_den / fps_num` seconds.
#[verifier::spinoff_prover]
pub proof fn law_progressive_timescale(st: Mp4State, chunk_offset: u32)
    requires
        st.samples.len() * st.fps_den <= u64::MAX,
        st.samples.len() <= u32::MAX,
    ensures
        ({
            let m = progressive_moov_spec(st, chunk_offset);
            &&& m.subrange(36, 40) == be32_spec(st.fps_num as u32)
            &&& m.subrange(276, 280) == be32_spec(st.fps_num as u32)
            &&& m.subrange(40, 48) == be64_spec((st.samples.len() * st.fps_den) as u64)
            &&& m.subrange(280, 288) == be64_spec((st.samples.len() * st.fps_den) as u64)
        }),
{
    reveal(progressive_moov_spec);
    let ts = st.fps_num as u32;
    let d = progressive_duration(st);
    assert(d == st.samples.len() * st.fps_den);
    lemma_header_clock(ts, d);
    lemma_tkhd_len(1, d, st.width, st.height);
    let minf = box_spec(
        MINF@,
        full_box_spec(VMHD@, 0, 1, zeros(8)) + dinf_spec() + progressive_stbl_spec(st, chunk_offset),
    );
    lemma_moov_layout(
        mvhd_spec(ts, d),
        tkhd_spec(1, d, st.width, st.height, false),
        mdhd_spec(ts, d),
        hdlr_spec(VIDE@, VIDEO_HANDLER@),
        minf,
    );
}

/// The big-endian list of the first `n` values is `4n` bytes long.
proof fn lemma_be32_list_len(v: Seq<u32>, n: int)
    requires
        n >= 0,
    ensures
        be32_list_spec(v, n).len() == 4 * n,
    decreases n,
{
    if n > 0 {
        lemma_be32_list_len(v, n - 1);
    }
}

/// Where the pieces of `stbl(stsd + stts + stss + stsc + stsz + stco)` put
/// the stts counts, the end of the stsz table and the stco entry.
proof fn lemma_stbl_layout(stsd: Seq<u8>, stts: Seq<u8>, stss: Seq<u8>, stsc: Seq<u8>, stsz: Seq<u8>, stco: Seq<u8>, x: int)
    requires
        stts.len() == 24,
        stco.len() == 20,
        0 <= x <= stsz.len(),
    ensures
        ({
            let t = box_spec(STBL@, stsd + stts + stss + stsc + stsz + stco);
            &&& t.subrange(stsd.len() as int + 24, stsd.len() as int + 32) == stts.subrange(16, 24)
            &&& t.subrange(t.len() - 8, t.len() as int) == stco.subrange(12, 20)
            &&& t.subrange(t.len() - 20 - x, t.len() - 20) == stsz.subrange(stsz.len() - x, stsz.len() as int)
        }),
{
    let t = box_spec(STBL@, stsd + stts + stss + stsc + stsz + stco);
    assert(t.subrange(stsd.len() as int + 24, stsd.len() as int + 32) =~= stts.subrange(16, 24));
    assert(t.subrange(t.len() - 8, t.len() as int) =~= stco.subrange(12, 20));
    assert(t.subrange(t.len() - 20 - x, t.len() - 20) =~= stsz.subrange(stsz.len() - x, stsz.len() as int));
}

/// The progressive sample tables: the time-to-sample table (right after the
/// sample description) holds one run of all `n` samples, each lasting
/// `fps_den` ticks of the `fps_num` timescale; the table of sample sizes,
/// right before the chunk-offset box, lists every sample's size in order;
/// and the single chunk-offset entry, the table's last bytes, is
/// `chunk_offset`.
pub proof fn law_progressive_sample_tables(st: Mp4State, chunk_offset: u32)
    requires
        st.samples.len() <= u32::MAX,
    ensures
        ({
            let t = progressive_stbl_spec(st, chunk_offset);
            let e = progressive_entry_spec(st).len() as int;
            let n = st.samples.len() as int;
            &&& t.subrange(e + 40, e + 48) == be32_spec(n as u32) + be32_spec(st.fps_den as u32)
            &&& t.subrange(t.len() - 20 - 4 * n, t.len() - 20) == be32_list_spec(
                st.samples.map_values(|m: SampleMeta| m.size),
                n,
            )
            &&& t.subrange(t.len() - 8, t.len() as int) == be32_spec(1) + be32_spec(chunk_offset)
        }),
{
    let n = st.samples.len() as u32;
    let stss = stss_entries(st.samples);
    let stsd = full_box_spec(STSD@, 0, 0, be32_spec(1) + progressive_entry_spec(st));
    let stts = full_box_spec(STTS@, 0, 0, be32_spec(1) + be32_spec(n) + be32_spec(st.fps_den as u32));
    let stssb = full_box_spec(STSS@, 0, 0, be32_spec(stss.len() as u32) + be32_list_spec(stss, stss.len() as int));
    let stsc = full_box_spec(STSC@, 0, 0, be32_spec(1) + be32_spec(1) + be32_spec(n) + be32_spec(1));
    let list = be32_list_spec(sample_sizes(st.samples), st.samples.len() as int);
    let stsz = full_box_spec(STSZ@, 0, 0, be32_spec(0) + be32_spec(n) + list);
    let stco = full_box_spec(STCO@, 0, 0, be32_spec(1) + be32_spec(chunk_offset));
    lemma_be32_list_len(sample_sizes(st.samples), st.samples.len() as int);
    assert(stts.len() == 24);
    assert(stco.len() == 20);
    assert(stsd.len() == 16 + progressive_entry_spec(st).len());
    lemma_stbl_layout(stsd, stts, stssb, stsc, stsz, stco, list.len() as int);
    assert(stts.subrange(16, 24) =~= be32_spec(n) + be32_spec(st.fps_den as u32));
    assert(stco.subrange(12, 20) =~= be32_spec(1) + be32_spec(chunk_offset));
    assert(stsz.subrange(stsz.len() - list.len(), stsz.len() as int) =~= list);
    assert(sample_sizes(st.samples) == st.samples.map_values(|m: SampleMeta| m.size));
}

/// The 1-based numbers of the keyframes among the first `n` packets.
pub open spec fn keyframe_numbers(pkts: Seq<PacketView>, n: int) -> Seq<u32>
    decreases n,
{
    if n <= 0 {
        Seq::empty()
    } else if pkts[n - 1].is_keyframe {
        keyframe_numbers(pkts, n - 1).push(((n - 1) as u32 + 1) as u32)
    } else {
        keyframe_numbers(pkts, n - 1)
    }
}

/// Samples that carry the packets' keyframe flags have the packets'
/// keyframes as their sync samples.
proof fn lemma_sync_numbers_follow_packets(samples: Seq<SampleMeta>, pkts: Seq<PacketView>, n: int)
    requires
        0 <= n <= samples.len(),
        n <= pkts.len(),
        forall|i: int| 0 <= i < n ==> (#[trigger] samples[i]).is_keyframe == pkts[i].is_keyframe,
    ensures
        sync_sample_numbers(samples, n) == keyframe_numbers(pkts, n),
    decreases n,
{
    if n > 0 {
        lemma_sync_numbers_follow_packets(samples, pkts, n - 1);
    }
}

/// The `moov` box is as long whatever chunk offset it records.
proof fn lemma_moov_len(st: Mp4State, a: u32, b: u32)
    ensures
        progressive_moov_spec(st, a).len() == progressive_moov_spec(st, b).len(),
{
    reveal(progressive_moov_spec);
}

/// Writing packets to a fresh muxer keeps one sample per packet, in order,
/// with the packet's size and keyframe flag, and an `mdat` payload that is
/// the packets' data end to end: the file `finish` writes is `ftyp`, the
/// `moov` whose chunk offset points past itself and the `mdat` header, then
/// the `mdat` holding the packets' data; its sample-size table lists the
/// packets' sizes in order, its sync-sample table the 1-based numbers of the
/// keyframe packets (sample 1 when there are packets but no keyframe), and,
/// where the file's head fits the 32-bit offset, the chunk offset is exactly
/// where the packets' data begins in the file.
pub proof fn law_mp4_file_holds_packets(st: Mp4State, pkts: Seq<PacketView>)
    requires
        st.samples.len() == 0,
        st.mdat.len() == 0,
    ensures
        ({
            let after = mp4_after(st, pkts);
            &&& after.samples.len() == pkts.len()
            &&& forall|i: int|
                0 <= i < pkts.len() ==> (#[trigger] after.samples[i]).size == pkts[i].data.len() as u32
                    && after.samples[i].is_keyframe == pkts[i].is_keyframe
            &&& after.mdat == packet_data_spec(pkts, pkts.len() as int)
            &&& after == Mp4State { samples: after.samples, mdat: after.mdat, ..st }
            &&& progressive_file_spec(after).subrange(
                progressive_file_spec(after).len() - after.mdat.len(),
                progressive_file_spec(after).len() as int,
            ) == packet_data_spec(pkts, pkts.len() as int)
            &&& progressive_file_spec(after) == ftyp_spec() + progressive_moov_spec(
                after,
                progressive_chunk_offset(after),
            ) + be32_spec((8 + packet_data_spec(pkts, pkts.len() as int).len()) as u32) + MDAT@
                + packet_data_spec(pkts, pkts.len() as int)
            &&& sample_sizes(after.samples) == pkts.map_values(|p: PacketView| p.data.len() as u32)
            &&& stss_entries(after.samples) == (if keyframe_numbers(pkts, pkts.len() as int).len() == 0
                && (pkts.len() as u32) > 0 {
                seq![1u32]
            } else {
                keyframe_numbers(pkts, pkts.len() as int)
            })
            &&& (ftyp_spec().len() + progressive_moov_spec(after, 0).len() + 8 <= u32::MAX ==> progressive_file_spec(
                after,
            ).subrange(progressive_chunk_offset(after) as int, progressive_file_spec(after).len() as int)
                == packet_data_spec(pkts, pkts.len() as int))
        }),
    decreases pkts.len(),
{
    let after = mp4_after(st, pkts);
    if pkts.len() > 0 {
        let prefix = pkts.drop_last();
        law_mp4_file_holds_packets(st, prefix);
        assert(packet_data_spec(prefix, prefix.len() as int) =~= packet_data_spec(pkts, pkts.len() - 1)) by {
            lemma_packet_data_prefix(pkts, pkts.len() - 1);
        }
    } else {
        assert(after.mdat =~= packet_data_spec(pkts, 0));
    }
    let file = progressive_file_spec(after);
    assert(file.subrange(file.len() - after.mdat.len(), file.len() as int) =~= after.mdat);
    assert(sample_sizes(after.samples) =~= pkts.map_values(|p: PacketView| p.data.len() as u32));
    lemma_sync_numbers_follow_packets(after.samples, pkts, pkts.len() as int);
    let off = progressive_chunk_offset(after);
    if ftyp_spec().len() + progressive_moov_spec(after, 0).len() + 8 <= u32::MAX {
        lemma_moov_len(after, 0, off);
        let head = ftyp_spec() + progressive_moov_spec(after, off) + be32_spec((8 + after.mdat.len()) as u32)
            + MDAT@;
        assert(head.len() == off);
        assert(file =~= head + after.mdat);
        assert(file.subrange(off as int, file.len() as int) =~= after.mdat);
    }
}

/// The data of the first `n` packets does not depend on the packets after them.
proof fn lemma_packet_data_prefix(pkts: Seq<PacketView>, n: int)
    requires
        0 <= n <= pkts.len(),
    ensures
        packet_data_spec(pkts.take(n), n) == packet_data_spec(pkts, n),
    decreases n,
{
    if n > 0 {
        lemma_packet_data_prefix(pkts, n - 1);
        lemma_packet_data_take(pkts, n, n - 1);
    }
}

/// Taking more packets leaves the data of the first ones as it was.
proof fn lemma_packet_data_take(pkts: Seq<PacketView>, m: int, n: int)
    requires
        0 <= n <= m <= pkts.len(),
    ensures
        packet_data_spec(pkts.take(m), n) == packet_data_spec(pkts, n),
    decreases n,
{
    if n > 0 {
        lemma_packet_data_take(pkts, m, n - 1);
    }
}

} // verus!
