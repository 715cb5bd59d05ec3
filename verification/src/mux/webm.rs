//! What a WebM (Matroska) writer is told of the streams and packets it
//! writes. The writer counts time in ticks of `fps_den / fps_num` seconds.

use vstd::prelude::*;

use crate::video::{codec_id_string, webm_codec_string, EncodedPacket, StreamInfo, StreamKind};

verus! {

/// A fraction `num / den`.
#[derive(Debug, Clone, Copy, PartialEq, Eq, Structural)]
pub struct Ratio {
    pub num: i64,
    pub den: i64,
}

/// The codec parameters of a WebM track.
#[derive(Debug, Clone, Copy, PartialEq, Eq, Structural)]
pub enum WebmParams {
    /// A video track: its size and frame rate `fps_num / fps_den`.
    Video { width: u32, height: u32, frame_rate: Ratio },
    /// An audio track.
    Audio { sample_rate: u32, channels: u16 },
}

/// One track of a WebM file.
#[derive(Debug, Clone)]
pub struct WebmTrack {
    pub index: u32,
    /// The short codec id (see [`codec_id_string`]).
    pub codec: String,
    /// The length of one tick as a fraction of a second.
    pub time_base: Ratio,
    pub params: WebmParams,
}

/// One packet as a WebM writer takes it.
#[derive(Debug, Clone)]
pub struct WebmPacket {
    pub stream_index: u32,
    pub time_base: Ratio,
    pub pts: i64,
    pub dts: i64,
    pub duration: i64,
    pub data: Vec<u8>,
    pub keyframe: bool,
}

/// Whether `t` describes stream `s` in a file of frame rate
/// `fps_num / fps_den`: a video track carries the size and frame rate, any
/// other track the sample rate and channel count.
pub open spec fn is_webm_track(t: WebmTrack, s: StreamInfo, fps_num: u64, fps_den: u64) -> bool {
    &&& t.index == s.index as u32
    &&& t.codec@ == webm_codec_string(s.codec)
    &&& t.time_base == (Ratio { num: fps_den as i64, den: fps_num as i64 })
    &&& t.params == if s.kind == StreamKind::Video {
        WebmParams::Video { width: s.width, height: s.height, frame_rate: Ratio { num: fps_num as i64, den: fps_den as i64 } }
    } else {
        WebmParams::Audio { sample_rate: s.sample_rate, channels: s.channels }
    }
}

/// The track for stream `s`.
pub fn webm_track(s: &StreamInfo, fps_num: u64, fps_den: u64) -> (r: WebmTrack)
    ensures
        is_webm_track(r, *s, fps_num, fps_den),
{
    let params = if s.is_video() {
        WebmParams::Video { width: s.width, height: s.height, frame_rate: Ratio { num: fps_num as i64, den: fps_den as i64 } }
    } else {
        WebmParams::Audio { sample_rate: s.sample_rate, channels: s.channels }
    };
    WebmTrack {
        index: s.index as u32,
        codec: codec_id_string(&s.codec),
        time_base: Ratio { num: fps_den as i64, den: fps_num as i64 },
        params,
    }
}

/// The tracks for `streams`, in order.
pub fn webm_tracks(streams: &[StreamInfo], fps_num: u64, fps_den: u64) -> (r: Vec<WebmTrack>)
    ensures
        r@.len() == streams@.len(),
        forall|i: int| 0 <= i < r@.len() ==> is_webm_track(#[trigger] r@[i], streams@[i], fps_num, fps_den),
{
    let mut out: Vec<WebmTrack> = Vec::new();
    let mut i: usize = 0;
    while i < streams.len()
        invariant
            i <= streams@.len(),
            out@.len() == i,
            forall|j: int| 0 <= j < i ==> is_webm_track(#[trigger] out@[j], streams@[j], fps_num, fps_den),
        decreases streams@.len() - i,
    {
        let t = webm_track(&streams[i], fps_num, fps_den);
        out.push(t);
        i = i + 1;
    }
    out
}

/// Whether `w` is `p` as a WebM writer takes it: decode and presentation
/// time both the packet's pts, all in ticks of `fps_den / fps_num`.
pub open spec fn is_webm_packet(w: WebmPacket, p: EncodedPacket, fps_num: u64, fps_den: u64) -> bool {
    &&& w.stream_index == p.stream_index as u32
    &&& w.time_base == (Ratio { num: fps_den as i64, den: fps_num as i64 })
    &&& w.pts == p.pts as i64
    &&& w.dts == p.pts as i64
    &&& w.duration == p.duration as i64
    &&& w.data@ == p.data@
    &&& w.keyframe == p.is_keyframe
}

/// Packet `p` as a WebM writer takes it.
pub fn webm_packet(p: &EncodedPacket, fps_num: u64, fps_den: u64) -> (r: WebmPacket)
    ensures
        is_webm_packet(r, *p, fps_num, fps_den),
{
    let mut data: Vec<u8> = Vec::new();
    crate::bytes::append(&mut data, p.data.as_slice());
    WebmPacket {
        stream_index: p.stream_index as u32,
        time_base: Ratio { num: fps_den as i64, den: fps_num as i64 },
        pts: p.pts as i64,
        dts: p.pts as i64,
        duration: p.duration as i64,
        data,
        keyframe: p.is_keyframe,
    }
}

} // verus!
