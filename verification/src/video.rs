//! Stream descriptions and compressed packets shared by demuxers and muxers.

use vstd::prelude::*;

use crate::frame::Frame;
use crate::text::{ascii_lowercase, str_is, to_ascii_lowercase};
use vstd::string::StringExecFns;

verus! {

/// Codec of an elementary stream.
#[derive(Debug, Clone)]
pub enum CodecId {
    Av1,
    Vp8,
    Vp9,
    H264,
    Aac,
    Opus,
    Vorbis,
    Pcm,
    /// Any codec the engine has no dedicated variant for, by name.
    Other(String),
}

impl CodecId {
    /// An owned copy of this codec id.
    pub fn copy(&self) -> (r: CodecId)
        ensures
            r == *self,
    {
        match self {
            CodecId::Av1 => CodecId::Av1,
            CodecId::Vp8 => CodecId::Vp8,
            CodecId::Vp9 => CodecId::Vp9,
            CodecId::H264 => CodecId::H264,
            CodecId::Aac => CodecId::Aac,
            CodecId::Opus => CodecId::Opus,
            CodecId::Vorbis => CodecId::Vorbis,
            CodecId::Pcm => CodecId::Pcm,
            CodecId::Other(s) => CodecId::Other(s.clone()),
        }
    }

    /// A display name for this codec.
    pub fn name(&self) -> (r: String)
        ensures
            r@ == self.spec_name(),
    {
        match self {
            CodecId::Av1 => String::from_str("AV1"),
            CodecId::Vp8 => String::from_str("VP8"),
            CodecId::Vp9 => String::from_str("VP9"),
            CodecId::H264 => String::from_str("H.264"),
            CodecId::Aac => String::from_str("AAC"),
            CodecId::Opus => String::from_str("Opus"),
            CodecId::Vorbis => String::from_str("Vorbis"),
            CodecId::Pcm => String::from_str("PCM"),
            CodecId::Other(s) => s.clone(),
        }
    }

    pub open spec fn spec_name(&self) -> Seq<char> {
        match self {
            CodecId::Av1 => "AV1"@,
            CodecId::Vp8 => "VP8"@,
            CodecId::Vp9 => "VP9"@,
            CodecId::H264 => "H.264"@,
            CodecId::Aac => "AAC"@,
            CodecId::Opus => "Opus"@,
            CodecId::Vorbis => "Vorbis"@,
            CodecId::Pcm => "PCM"@,
            CodecId::Other(s) => s@,
        }
    }
}

/// The kind of an elementary stream.
#[derive(Debug, Clone, Copy, PartialEq, Eq, Structural)]
pub enum StreamKind {
    Video,
    Audio,
    Subtitle,
    Other,
}

/// Description of one elementary stream inside a container.
#[derive(Debug, Clone)]
pub struct StreamInfo {
    /// 0-based stream index within the container.
    pub index: usize,
    pub kind: StreamKind,
    pub codec: CodecId,
    /// Video only.
    pub width: u32,
    /// Video only.
    pub height: u32,
    /// Audio only.
    pub sample_rate: u32,
    /// Audio only.
    pub channels: u16,
    /// Codec-specific setup bytes (e.g. `avcC`).
    pub codec_private: Vec<u8>,
}

impl StreamInfo {
    pub fn is_video(&self) -> (r: bool)
        ensures
            r == (self.kind == StreamKind::Video),
    {
        self.kind == StreamKind::Video
    }

    pub fn is_audio(&self) -> (r: bool)
        ensures
            r == (self.kind == StreamKind::Audio),
    {
        self.kind == StreamKind::Audio
    }
}

/// A compressed packet read from a container.
#[derive(Debug)]
pub struct Packet {
    pub data: Vec<u8>,
    pub pts: u64,
    pub duration: u64,
    pub is_keyframe: bool,
}

/// A compressed packet on its way into a muxer.
#[derive(Debug)]
pub struct EncodedPacket {
    pub stream_index: usize,
    pub pts: u64,
    pub duration: u64,
    pub data: Vec<u8>,
    pub is_keyframe: bool,
}

/// The plain-value view of an [`EncodedPacket`].
pub ghost struct PacketView {
    pub stream_index: usize,
    pub pts: u64,
    pub duration: u64,
    pub data: Seq<u8>,
    pub is_keyframe: bool,
}

impl View for EncodedPacket {
    type V = PacketView;

    open spec fn view(&self) -> PacketView {
        PacketView {
            stream_index: self.stream_index,
            pts: self.pts,
            duration: self.duration,
            data: self.data@,
            is_keyframe: self.is_keyframe,
        }
    }
}

/// The views of a sequence of packets.
pub open spec fn packet_views(s: Seq<EncodedPacket>) -> Seq<PacketView> {
    s.map_values(|p: EncodedPacket| p@)
}

impl EncodedPacket {
    /// An owned copy of this packet.
    pub fn copy(&self) -> (r: EncodedPacket)
        ensures
            r@ == self@,
    {
        let mut data: Vec<u8> = Vec::new();
        crate::bytes::append(&mut data, self.data.as_slice());
        EncodedPacket {
            stream_index: self.stream_index,
            pts: self.pts,
            duration: self.duration,
            data,
            is_keyframe: self.is_keyframe,
        }
    }
}

/// A decoded video picture with its timing.
#[derive(Debug)]
pub struct VideoFrame {
    pub frame: Frame,
    pub pts: u64,
    pub duration: u64,
    pub is_keyframe: bool,
}

impl VideoFrame {
    pub fn new(frame: Frame, pts: u64, duration: u64, is_keyframe: bool) -> (r: VideoFrame)
        ensures
            r.frame == frame,
            r.pts == pts,
            r.duration == duration,
            r.is_keyframe == is_keyframe,
    {
        VideoFrame { frame, pts, duration, is_keyframe }
    }
}

/// The codec a known Matroska codec id names.
pub open spec fn mkv_codec(id: Seq<char>) -> Option<CodecId> {
    if id == "V_VP8"@ {
        Some(CodecId::Vp8)
    } else if id == "V_VP9"@ {
        Some(CodecId::Vp9)
    } else if id == "A_OPUS"@ {
        Some(CodecId::Opus)
    } else if id == "A_VORBIS"@ {
        Some(CodecId::Vorbis)
    } else if id == "A_PCM/INT/LIT"@ || id == "A_PCM/INT/BIG"@ || id == "A_PCM/FLOAT/IEEE"@ {
        Some(CodecId::Pcm)
    } else {
        None
    }
}

/// The codec a Matroska codec id names; an unknown id is kept as text.
pub fn codec_id_from_mkv(id: &str) -> (r: CodecId)
    ensures
        match mkv_codec(id@) {
            Some(c) => r == c,
            None => (r matches CodecId::Other(s) && s@ == id@),
        },
{
    if str_is(id, "V_VP8") {
        CodecId::Vp8
    } else if str_is(id, "V_VP9") {
        CodecId::Vp9
    } else if str_is(id, "A_OPUS") {
        CodecId::Opus
    } else if str_is(id, "A_VORBIS") {
        CodecId::Vorbis
    } else if str_is(id, "A_PCM/INT/LIT") || str_is(id, "A_PCM/INT/BIG") || str_is(
        id,
        "A_PCM/FLOAT/IEEE",
    ) {
        CodecId::Pcm
    } else {
        CodecId::Other(String::from_str(id))
    }
}

/// The short codec id a WebM writer takes for a codec.
pub open spec fn webm_codec_string(codec: CodecId) -> Seq<char> {
    match codec {
        CodecId::Av1 => "av1"@,
        CodecId::Vp8 => "vp8"@,
        CodecId::Vp9 => "vp9"@,
        CodecId::H264 => "avc"@,
        CodecId::Aac => "aac"@,
        CodecId::Opus => "opus"@,
        CodecId::Vorbis => "vorbis"@,
        CodecId::Pcm => "pcm"@,
        CodecId::Other(s) => ascii_lowercase(s@),
    }
}

/// The short, lowercase codec id a WebM writer takes for a codec.
pub fn codec_id_string(codec: &CodecId) -> (r: String)
    ensures
        r@ == webm_codec_string(*codec),
{
    match codec {
        CodecId::Av1 => String::from_str("av1"),
        CodecId::Vp8 => String::from_str("vp8"),
        CodecId::Vp9 => String::from_str("vp9"),
        CodecId::H264 => String::from_str("avc"),
        CodecId::Aac => String::from_str("aac"),
        CodecId::Opus => String::from_str("opus"),
        CodecId::Vorbis => String::from_str("vorbis"),
        CodecId::Pcm => String::from_str("pcm"),
        CodecId::Other(s) => to_ascii_lowercase(s.as_str()),
    }
}


/// Matroska codec ids name their codecs: `V_VP8` and `V_VP9` the VP8 and
/// VP9 video codecs, `A_OPUS` and `A_VORBIS` those audio codecs, and the
/// three `A_PCM/...` ids (little- and big-endian integer, IEEE float) PCM.
pub proof fn law_mkv_codec_ids()
    ensures
        mkv_codec("V_VP8"@) == Some(CodecId::Vp8),
        mkv_codec("V_VP9"@) == Some(CodecId::Vp9),
        mkv_codec("A_OPUS"@) == Some(CodecId::Opus),
        mkv_codec("A_VORBIS"@) == Some(CodecId::Vorbis),
        mkv_codec("A_PCM/INT/LIT"@) == Some(CodecId::Pcm),
        mkv_codec("A_PCM/INT/BIG"@) == Some(CodecId::Pcm),
        mkv_codec("A_PCM/FLOAT/IEEE"@) == Some(CodecId::Pcm),
{
    reveal_strlit("V_VP8");
    reveal_strlit("V_VP9");
    reveal_strlit("A_OPUS");
    reveal_strlit("A_VORBIS");
    reveal_strlit("A_PCM/INT/LIT");
    reveal_strlit("A_PCM/INT/BIG");
    reveal_strlit("A_PCM/FLOAT/IEEE");
    assert("V_VP9"@ != "V_VP8"@) by {
        assert("V_VP9"@[4] != "V_VP8"@[4]);
    }
    assert("A_OPUS"@ != "V_VP8"@ && "A_OPUS"@ != "V_VP9"@) by {
        assert("A_OPUS"@[0] != "V_VP8"@[0]);
    }
    assert("A_VORBIS"@ != "V_VP8"@ && "A_VORBIS"@ != "V_VP9"@ && "A_VORBIS"@ != "A_OPUS"@) by {
        assert("A_VORBIS"@.len() != "A_OPUS"@.len());
        assert("A_VORBIS"@[0] != "V_VP8"@[0]);
    }
    assert("A_PCM/INT/LIT"@.len() == 13 && "A_PCM/INT/BIG"@.len() == 13 && "A_PCM/FLOAT/IEEE"@.len() == 16);
}

/// The short codec ids a WebM writer takes are lowercase: `av1`, `vp8`,
/// `vp9`, `avc` (H.264), `aac`, `opus`, `vorbis`, `pcm`, and any other
/// codec's name with its ASCII letters lowercased; none holds an ASCII
/// capital.
pub proof fn law_webm_codec_strings(codec: CodecId)
    ensures
        webm_codec_string(CodecId::Av1) == "av1"@,
        webm_codec_string(CodecId::Vp8) == "vp8"@,
        webm_codec_string(CodecId::Vp9) == "vp9"@,
        webm_codec_string(CodecId::H264) == "avc"@,
        webm_codec_string(CodecId::Aac) == "aac"@,
        webm_codec_string(CodecId::Opus) == "opus"@,
        webm_codec_string(CodecId::Vorbis) == "vorbis"@,
        webm_codec_string(CodecId::Pcm) == "pcm"@,
        forall|i: int|
            0 <= i < webm_codec_string(codec).len() ==> !('A' <= #[trigger] webm_codec_string(codec)[i] <= 'Z'),
{
    reveal_strlit("av1");
    reveal_strlit("vp8");
    reveal_strlit("vp9");
    reveal_strlit("avc");
    reveal_strlit("aac");
    reveal_strlit("opus");
    reveal_strlit("vorbis");
    reveal_strlit("pcm");
}

} // verus!
