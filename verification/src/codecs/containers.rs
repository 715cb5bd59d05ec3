//! Stream descriptions and packet scheduling for the Matroska/WebM and MP4
//! demuxers. Reading the files happens outside the library; the track facts
//! read there come in as plain values.

use vstd::prelude::*;
use vstd::string::StringExecFns;

use crate::video::{codec_id_from_mkv, mkv_codec, CodecId, StreamInfo, StreamKind};

verus! {

// ---------------------------------------------------------------------------
// Matroska / WebM.

/// The kind of a Matroska track, as far as streams distinguish it.
#[derive(Debug, Clone, Copy, PartialEq, Eq, Structural)]
pub enum MkvTrackKind {
    Video,
    Audio,
    Subtitle,
    Other,
}

/// The stream kind of a track kind.
pub open spec fn kind_of_track(k: MkvTrackKind) -> StreamKind {
    match k {
        MkvTrackKind::Video => StreamKind::Video,
        MkvTrackKind::Audio => StreamKind::Audio,
        MkvTrackKind::Subtitle => StreamKind::Subtitle,
        MkvTrackKind::Other => StreamKind::Other,
    }
}

/// The stream that Matroska track number `index` (0-based) describes:
/// pixel size for video tracks, rate and channels for audio tracks, zero
/// otherwise.
pub fn stream_from_mkv_track(
    index: usize,
    kind: MkvTrackKind,
    codec_id: &str,
    video_size: Option<(u32, u32)>,
    audio: Option<(u32, u16)>,
    codec_private: Option<Vec<u8>>,
) -> (r: StreamInfo)
    ensures
        r.index == index,
        r.kind == kind_of_track(kind),
        match mkv_codec(codec_id@) {
            Some(c) => r.codec == c,
            None => (r.codec matches CodecId::Other(s) && s@ == codec_id@),
        },
        (r.width, r.height) == (match video_size {
            Some(v) => v,
            None => (0u32, 0u32),
        }),
        (r.sample_rate, r.channels) == (match audio {
            Some(a) => a,
            None => (0u32, 0u16),
        }),
        r.codec_private@ == (match codec_private {
            Some(p) => p@,
            None => Seq::<u8>::empty(),
        }),
{
    let stream_kind = match kind {
        MkvTrackKind::Video => StreamKind::Video,
        MkvTrackKind::Audio => StreamKind::Audio,
        MkvTrackKind::Subtitle => StreamKind::Subtitle,
        MkvTrackKind::Other => StreamKind::Other,
    };
    let (width, height) = match video_size {
        Some(v) => v,
        None => (0, 0),
    };
    let (sample_rate, channels) = match audio {
        Some(a) => a,
        None => (0, 0),
    };
    let private = match codec_private {
        Some(p) => p,
        None => Vec::new(),
    };
    StreamInfo {
        index,
        kind: stream_kind,
        codec: codec_id_from_mkv(codec_id),
        width,
        height,
        sample_rate,
        channels,
        codec_private: private,
    }
}

/// The position of the first track whose number is `track_num`.
pub fn track_position(track_numbers: &[u64], track_num: u64) -> (r: Option<usize>)
    ensures
        match r {
            Some(i) => i < track_numbers@.len() && track_numbers@[i as int] == track_num && forall|j: int|
                0 <= j < i ==> track_numbers@[j] != track_num,
            None => forall|j: int| 0 <= j < track_numbers@.len() ==> track_numbers@[j] != track_num,
        },
{
    let mut i: usize = 0;
    while i < track_numbers.len()
        invariant
            i <= track_numbers@.len(),
            forall|j: int| 0 <= j < i ==> track_numbers@[j] != track_num,
        decreases track_numbers@.len() - i,
    {
        if track_numbers[i] == track_num {
            return Some(i);
        }
        i = i + 1;
    }
    None
}

// ---------------------------------------------------------------------------
// MP4.

/// The media types the `mp4` crate reports.
#[derive(Debug, Clone, Copy, PartialEq, Eq, Structural)]
pub enum Mp4MediaType {
    H264,
    H265,
    Vp9,
    Aac,
    Ttxt,
}

/// The codec an MP4 media type names; HEVC and timed text are kept by name.
pub fn codec_id_from_mp4_media_type(mt: Mp4MediaType) -> (r: CodecId)
    ensures
        match mt {
            Mp4MediaType::H264 => r == CodecId::H264,
            Mp4MediaType::Vp9 => r == CodecId::Vp9,
            Mp4MediaType::Aac => r == CodecId::Aac,
            Mp4MediaType::H265 => (r matches CodecId::Other(s) && s@ == "H265"@),
            Mp4MediaType::Ttxt => (r matches CodecId::Other(s) && s@ == "TTXT"@),
        },
{
    match mt {
        Mp4MediaType::H264 => CodecId::H264,
        Mp4MediaType::H265 => CodecId::Other(String::from_str("H265")),
        Mp4MediaType::Vp9 => CodecId::Vp9,
        Mp4MediaType::Aac => CodecId::Aac,
        Mp4MediaType::Ttxt => CodecId::Other(String::from_str("TTXT")),
    }
}

/// The AAC channel configurations the `mp4` crate reports.
#[derive(Debug, Clone, Copy, PartialEq, Eq, Structural)]
pub enum ChannelLayout {
    Mono,
    Stereo,
    Three,
    Four,
    Five,
    FiveOne,
    SevenOne,
}

/// The number of channels of a channel configuration.
pub fn channel_config_count(cc: ChannelLayout) -> (r: u16)
    ensures
        r == match cc {
            ChannelLayout::Mono => 1u16,
            ChannelLayout::Stereo => 2u16,
            ChannelLayout::Three => 3u16,
            ChannelLayout::Four => 4u16,
            ChannelLayout::Five => 5u16,
            ChannelLayout::FiveOne => 6u16,
            ChannelLayout::SevenOne => 8u16,
        },
{
    match cc {
        ChannelLayout::Mono => 1,
        ChannelLayout::Stereo => 2,
        ChannelLayout::Three => 3,
        ChannelLayout::Four => 4,
        ChannelLayout::Five => 5,
        ChannelLayout::FiveOne => 6,
        ChannelLayout::SevenOne => 8,
    }
}

/// Where each MP4 track's reading stands: its track id, the next sample id
/// (1-based) and its sample count; and which stream is tried first next.
#[derive(Debug)]
pub struct Mp4Cursor {
    pub cursors: Vec<(u32, u32, u32)>,
    pub current: usize,
}

impl Mp4Cursor {
    /// The cursor's invariant.
    pub open spec fn wf(&self) -> bool {
        &&& self.cursors@.len() == 0 || self.current < self.cursors@.len()
        &&& forall|i: int| 0 <= i < self.cursors@.len() ==> #[trigger] self.cursors@[i].1 <= self.cursors@[i].2 + 1
            && self.cursors@[i].2 < u32::MAX
    }

    /// Cursors at the first sample of each track, given as (track id, sample
    /// count).
    pub fn new(tracks: &[(u32, u32)]) -> (r: Mp4Cursor)
        requires
            forall|i: int| 0 <= i < tracks@.len() ==> #[trigger] tracks@[i].1 < u32::MAX,
        ensures
            r.wf(),
            r.current == 0,
            r.cursors@.len() == tracks@.len(),
            forall|i: int|
                0 <= i < tracks@.len() ==> #[trigger] r.cursors@[i] == (tracks@[i].0, 1u32, tracks@[i].1),
    {
        let mut cursors: Vec<(u32, u32, u32)> = Vec::new();
        let mut i: usize = 0;
        while i < tracks.len()
            invariant
                i <= tracks@.len(),
                forall|k: int| 0 <= k < tracks@.len() ==> #[trigger] tracks@[k].1 < u32::MAX,
                cursors@.len() == i,
                forall|k: int| 0 <= k < i ==> #[trigger] cursors@[k] == (tracks@[k].0, 1u32, tracks@[k].1),
            decreases tracks@.len() - i,
        {
            cursors.push((tracks[i].0, 1, tracks[i].1));
            i = i + 1;
        }
        Mp4Cursor { cursors, current: 0 }
    }

    /// One attempt of the round-robin: the stream `(current + attempt) % n`
    /// is tried; an exhausted one gives `None`, otherwise its next sample is
    /// taken (stream position, track id, sample id) and the stream after it
    /// is tried first next.
    pub fn attempt(&mut self, attempt: usize) -> (r: Option<(usize, u32, u32)>)
        requires
            old(self).wf(),
            old(self).cursors@.len() > 0,
        ensures
            final(self).wf(),
            final(self).cursors@.len() == old(self).cursors@.len(),
            ({
                let n = old(self).cursors@.len();
                let si = ((old(self).current + attempt) % (n as int)) as int;
                let c = old(self).cursors@[si];
                if c.1 > c.2 {
                    r is None && final(self).cursors == old(self).cursors && final(self).current
                        == old(self).current
                } else {
                    r == Some((si as usize, c.0, c.1)) && final(self).cursors@ == old(self).cursors@.update(
                        si,
                        (c.0, (c.1 + 1) as u32, c.2),
                    ) && final(self).current == (si + 1) % (n as int)
                }
            }),
    {
        let n = self.cursors.len();
        let si = ((self.current as u128 + attempt as u128) % (n as u128)) as usize;
        let (track_id, sample_id, total) = self.cursors[si];
        if sample_id > total {
            return None;
        }
        self.cursors.set(si, (track_id, sample_id + 1, total));
        self.current = (si + 1) % n;
        Some((si, track_id, sample_id))
    }
}

} // verus!
