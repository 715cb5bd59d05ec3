//! VP8 keyframe decoding and the IVF container, on top of `oxideav-vp8`.
//!
//! The IVF demuxer is split from its reader: the caller reads the 32-byte
//! file header and each 12-byte frame header and payload at the offsets the
//! demuxer names, and hands the bytes in.

use vstd::prelude::*;
use vstd::string::StringExecFns;

use crate::bytes::{le16_spec, le32_spec, le64_spec};
use crate::error::Error;
use crate::frame::{Frame, PixelFormat};
use crate::text::{decimal_spec, push_decimal};
use crate::video::{CodecId, Packet, StreamInfo, StreamKind, VideoFrame};

verus! {

// ---------------------------------------------------------------------------
// Calls into oxideav-vp8 and std.

/// What `oxideav_vp8::decode_vp8` gives for a VP8 frame: the width, height
/// and Y, U, V planes of a decoded key frame, or the text of its error.
pub uninterp spec fn vp8_decoded(data: Seq<u8>) -> Result<(u32, u32, Seq<u8>, Seq<u8>, Seq<u8>), Seq<char>>;

/// Calls `oxideav_vp8::decode_vp8`, which decodes one VP8 key frame into
/// planar YUV 4:2:0, and renders an error as its `Display` text. The result
/// is named by [`vp8_decoded`].
#[verifier::external_body]
fn decode_vp8_frame(data: &[u8]) -> (r: Result<(u32, u32, Vec<u8>, Vec<u8>, Vec<u8>), String>)
    ensures
        match (r, vp8_decoded(data@)) {
            (Ok(got), Ok(want)) => got.0 == want.0 && got.1 == want.1 && got.2@ == want.2
                && got.3@ == want.3 && got.4@ == want.4,
            (Err(got), Err(want)) => got@ == want,
            _ => false,
        },
{
    match oxideav_vp8::decode_vp8(data) {
        Ok(f) => Ok((f.width, f.height, f.y, f.u, f.v)),
        Err(e) => Err(e.to_string()),
    }
}

/// The fields of an IVF file header.
#[derive(Debug, Clone, Copy)]
pub struct IvfHeaderInfo {
    pub width: u32,
    pub height: u32,
    pub framerate_num: u32,
    pub framerate_den: u32,
    pub frame_count: u32,
    pub fourcc: [u8; 4],
}

/// `DKIF`, the IVF signature.
pub const IVF_SIGNATURE: [u8; 4] = [68, 75, 73, 70];

/// `VP80`, the fourcc of a VP8 stream.
pub const FOURCC_VP8: [u8; 4] = [86, 80, 56, 48];

/// `VP90`, the fourcc of a VP9 stream.
pub const FOURCC_VP9: [u8; 4] = [86, 80, 57, 48];

/// Bytes of the IVF file header.
pub const IVF_HEADER_LEN: usize = 32;

/// Bytes of an IVF frame header.
pub const IVF_FRAME_HEADER_LEN: usize = 12;

/// The lowercase hexadecimal digit for `n` (0–15).
pub open spec fn hex_digit(n: int) -> char {
    if n < 10 {
        ('0' as int + n) as char
    } else {
        ('a' as int + n - 10) as char
    }
}

/// A byte as two lowercase hexadecimal digits.
pub open spec fn hex2(b: u8) -> Seq<char> {
    seq![hex_digit(b as int / 16), hex_digit(b as int % 16)]
}

/// The text of the error `oxideav_vp8::ivf::parse_header` gives for `buf`.
pub open spec fn ivf_header_error(buf: Seq<u8>) -> Seq<char> {
    if buf.len() < 32 {
        "oxideav-vp8: invalid data: ivf: header truncated ("@ + decimal_spec(buf.len())
            + " < 32 bytes)"@
    } else {
        "oxideav-vp8: invalid data: ivf: bad signature ["@ + hex2(buf[0]) + ", "@ + hex2(buf[1])
            + ", "@ + hex2(buf[2]) + ", "@ + hex2(buf[3]) + "] (expected [44, 4b, 49, 46])"@
    }
}

/// Whether `buf` starts like an IVF file header.
pub open spec fn ivf_header_ok(buf: Seq<u8>) -> bool {
    buf.len() >= 32 && buf.subrange(0, 4) == IVF_SIGNATURE@
}

/// Calls `oxideav_vp8::ivf::parse_header`. Its source accepts a buffer of at
/// least 32 bytes that starts with `DKIF`, and reads the fourcc at bytes
/// 8..12, the width and height as little-endian 16-bit values at 12 and 14,
/// and the frame-rate numerator, denominator and frame count as
/// little-endian 32-bit values at 16, 20 and 24. Its error's text is given
/// by [`ivf_header_error`].
#[verifier::external_body]
fn parse_ivf_header(buf: &[u8]) -> (r: Result<IvfHeaderInfo, String>)
    ensures
        match r {
            Ok(h) => ivf_header_ok(buf@) && h.fourcc@ == buf@.subrange(8, 12) && le16_spec(
                h.width as u16,
            ) == buf@.subrange(12, 14) && h.width < 0x1_0000 && le16_spec(h.height as u16)
                == buf@.subrange(14, 16) && h.height < 0x1_0000 && le32_spec(h.framerate_num)
                == buf@.subrange(16, 20) && le32_spec(h.framerate_den) == buf@.subrange(20, 24)
                && le32_spec(h.frame_count) == buf@.subrange(24, 28),
            Err(m) => !ivf_header_ok(buf@) && m@ == ivf_header_error(buf@),
        },
{
    match oxideav_vp8::ivf::parse_header(buf) {
        Ok(h) => Ok(IvfHeaderInfo {
            width: h.width, height: h.height, framerate_num: h.framerate_num,
            framerate_den: h.framerate_den, frame_count: h.frame_count, fourcc: h.fourcc,
        }),
        Err(e) => Err(e.to_string()),
    }
}

/// The text of the error `oxideav_vp8::ivf::parse_frame_header` gives for a
/// buffer of `len` bytes.
pub open spec fn ivf_frame_header_error(len: nat) -> Seq<char> {
    "oxideav-vp8: invalid data: ivf: frame header truncated ("@ + decimal_spec(len)
        + " < 12 bytes)"@
}

/// Calls `oxideav_vp8::ivf::parse_frame_header`. Its source accepts a buffer
/// of at least 12 bytes and reads the payload size as a little-endian 32-bit
/// value at 0 and the timestamp as a little-endian 64-bit value at 4.
#[verifier::external_body]
fn parse_ivf_frame_header(buf: &[u8]) -> (r: Result<(u32, u64), String>)
    ensures
        match r {
            Ok(h) => buf@.len() >= 12 && le32_spec(h.0) == buf@.subrange(0, 4) && le64_spec(h.1)
                == buf@.subrange(4, 12),
            Err(m) => buf@.len() < 12 && m@ == ivf_frame_header_error(buf@.len()),
        },
{
    match oxideav_vp8::ivf::parse_frame_header(buf) {
        Ok(h) => Ok((h.size, h.pts)),
        Err(e) => Err(e.to_string()),
    }
}

/// What `String::from_utf8_lossy` gives for some bytes.
pub uninterp spec fn utf8_lossy(bytes: Seq<u8>) -> Seq<char>;

/// Calls `String::from_utf8_lossy`, which decodes UTF-8 and replaces each
/// invalid sequence with U+FFFD; on valid UTF-8 it is plain decoding.
#[verifier::external_body]
fn from_utf8_lossy(bytes: &[u8]) -> (r: String)
    ensures
        r@ == utf8_lossy(bytes@),
        vstd::utf8::valid_utf8(bytes@) ==> r@ == vstd::utf8::decode_utf8(bytes@),
{
    String::from_utf8_lossy(bytes).into_owned()
}

// ---------------------------------------------------------------------------
// VP8.

/// Pure-Rust VP8 decoder. Key frames only: an inter-frame is reported as an
/// error by the underlying decoder.
#[derive(Debug, Default)]
pub struct Vp8Decoder;

/// A decoded picture from its planes: the Y, U and V planes packed one after
/// the other into a `Yuv420p` frame, with the packet's timing.
pub fn frame_from_planes(
    width: u32,
    height: u32,
    y: &[u8],
    u: &[u8],
    v: &[u8],
    packet: &Packet,
) -> (r: VideoFrame)
    ensures
        r.frame.width == width,
        r.frame.height == height,
        r.frame.format == PixelFormat::Yuv420p,
        r.frame.data@ == y@ + u@ + v@,
        r.pts == packet.pts,
        r.duration == packet.duration,
        r.is_keyframe == packet.is_keyframe,
{
    let mut data: Vec<u8> = Vec::new();
    data.extend_from_slice(y);
    data.extend_from_slice(u);
    data.extend_from_slice(v);
    assert(data@ =~= y@ + u@ + v@);
    let frame = Frame::new(width, height, PixelFormat::Yuv420p, data);
    VideoFrame::new(frame, packet.pts, packet.duration, packet.is_keyframe)
}

impl Vp8Decoder {
    /// Decode one VP8 packet into a `Yuv420p` picture.
    pub fn decode_packet(&mut self, packet: &Packet) -> (r: Result<VideoFrame, Error>)
        ensures
            match vp8_decoded(packet.data@) {
                Ok(d) => (r matches Ok(f) && f.frame.width == d.0 && f.frame.height == d.1
                    && f.frame.format == PixelFormat::Yuv420p && f.frame.data@ == d.2 + d.3 + d.4
                    && f.pts == packet.pts && f.duration == packet.duration && f.is_keyframe
                    == packet.is_keyframe),
                Err(m) => (r matches Err(e) && e.is_video(m)),
            },
    {
        match decode_vp8_frame(packet.data.as_slice()) {
            Ok(d) => Ok(frame_from_planes(d.0, d.1, d.2.as_slice(), d.3.as_slice(), d.4.as_slice(), packet)),
            Err(m) => Err(Error::Video(m)),
        }
    }
}

// ---------------------------------------------------------------------------
// IVF.

/// Whether `c` is the codec an IVF fourcc names: VP8, VP9, or otherwise the
/// fourcc itself as text.
pub open spec fn is_ivf_codec(c: CodecId, fourcc: Seq<u8>) -> bool {
    if fourcc == FOURCC_VP8@ {
        c == CodecId::Vp8
    } else if fourcc == FOURCC_VP9@ {
        c == CodecId::Vp9
    } else {
        c matches CodecId::Other(s) && s@ == utf8_lossy(fourcc)
    }
}

/// Demuxes a raw IVF container (DKIF magic, VP8 or VP9 payload), which holds
/// exactly one video stream.
#[derive(Debug)]
pub struct IvfDemuxer {
    pub streams: Vec<StreamInfo>,
    /// Byte offset of the next frame header inside the file.
    pub next_offset: u64,
    /// The header's frame-rate numerator and denominator.
    pub framerate: (u32, u32),
}

/// "ivf: " and then `m`.
pub open spec fn ivf_message(m: Seq<char>) -> Seq<char> {
    "ivf: "@ + m
}

fn ivf_error(m: String) -> (r: Error)
    ensures
        r.is_video(ivf_message(m@)),
{
    let mut s = String::from_str("ivf: ");
    s.append(m.as_str());
    Error::Video(s)
}

impl IvfDemuxer {
    /// Open an IVF stream from its 32-byte file header.
    pub fn open(header: &[u8]) -> (r: Result<IvfDemuxer, Error>)
        ensures
            !ivf_header_ok(header@) ==> (r matches Err(e) && e.is_video(
                ivf_message(ivf_header_error(header@)),
            )),
            ivf_header_ok(header@) ==> (r matches Ok(d) && d.next_offset == 32 && d.streams@.len()
                == 1 && d.streams@[0].index == 0 && d.streams@[0].kind == StreamKind::Video
                && is_ivf_codec(d.streams@[0].codec, header@.subrange(8, 12))
                && le16_spec(d.streams@[0].width as u16) == header@.subrange(12, 14)
                && d.streams@[0].width < 0x1_0000 && le16_spec(d.streams@[0].height as u16)
                == header@.subrange(14, 16) && d.streams@[0].height < 0x1_0000
                && d.streams@[0].sample_rate == 0 && d.streams@[0].channels == 0
                && d.streams@[0].codec_private@.len() == 0 && le32_spec(d.framerate.0)
                == header@.subrange(16, 20) && le32_spec(d.framerate.1) == header@.subrange(20, 24)),
    {
        let hdr = match parse_ivf_header(header) {
            Ok(h) => h,
            Err(m) => {
                return Err(ivf_error(m));
            },
        };
        let codec = if hdr.fourcc[0] == 86 && hdr.fourcc[1] == 80 && hdr.fourcc[2] == 56
            && hdr.fourcc[3] == 48 {
            CodecId::Vp8
        } else if hdr.fourcc[0] == 86 && hdr.fourcc[1] == 80 && hdr.fourcc[2] == 57 && hdr.fourcc[3]
            == 48 {
            CodecId::Vp9
        } else {
            CodecId::Other(from_utf8_lossy(&hdr.fourcc))
        };
        proof {
            let f = header@.subrange(8, 12);
            assert(hdr.fourcc@ == f);
            if f == FOURCC_VP8@ {
                assert(hdr.fourcc@[0] == 86 && hdr.fourcc@[1] == 80 && hdr.fourcc@[2] == 56
                    && hdr.fourcc@[3] == 48);
            } else if f == FOURCC_VP9@ {
                assert(hdr.fourcc@[0] == 86 && hdr.fourcc@[1] == 80 && hdr.fourcc@[2] == 57
                    && hdr.fourcc@[3] == 48);
            }
            if hdr.fourcc[0] == 86 && hdr.fourcc[1] == 80 && hdr.fourcc[2] == 56 && hdr.fourcc[3] == 48 {
                assert(f =~= FOURCC_VP8@);
            }
            if hdr.fourcc[0] == 86 && hdr.fourcc[1] == 80 && hdr.fourcc[2] == 57 && hdr.fourcc[3] == 48 {
                assert(f =~= FOURCC_VP9@);
            }
        }
        let stream = StreamInfo {
            index: 0,
            kind: StreamKind::Video,
            codec,
            width: hdr.width,
            height: hdr.height,
            sample_rate: 0,
            channels: 0,
            codec_private: Vec::new(),
        };
        let mut streams: Vec<StreamInfo> = Vec::new();
        streams.push(stream);
        Ok(
            IvfDemuxer {
                streams,
                next_offset: 32,
                framerate: (hdr.framerate_num, hdr.framerate_den),
            },
        )
    }

    /// The container's streams (one video stream).
    pub fn streams(&self) -> (r: &[StreamInfo])
        ensures
            r@ == self.streams@,
    {
        self.streams.as_slice()
    }

    /// Parse a frame header read at [`IvfDemuxer::next_offset`]: the payload
    /// size and the timestamp.
    pub fn frame_header(&self, buf: &[u8]) -> (r: Result<(u32, u64), Error>)
        ensures
            buf@.len() >= 12 ==> (r matches Ok(h) && le32_spec(h.0) == buf@.subrange(0, 4)
                && le64_spec(h.1) == buf@.subrange(4, 12)),
            buf@.len() < 12 ==> (r matches Err(e) && e.is_video(
                ivf_message(ivf_frame_header_error(buf@.len())),
            )),
    {
        match parse_ivf_frame_header(buf) {
            Ok(h) => Ok(h),
            Err(m) => Err(ivf_error(m)),
        }
    }

    /// The packet whose header gave `pts` and whose payload is `data`; the
    /// next frame header is read after it. VP8 marks a key frame with a clear
    /// low bit in the first payload byte.
    pub fn take_packet(&mut self, pts: u64, data: Vec<u8>) -> (r: (usize, Packet))
        requires
            old(self).next_offset + 12 + data@.len() <= u64::MAX,
        ensures
            final(self).next_offset == old(self).next_offset + 12 + data@.len(),
            final(self).streams == old(self).streams,
            final(self).framerate == old(self).framerate,
            r.0 == 0,
            r.1.data@ == data@,
            r.1.pts == pts,
            r.1.duration == 0,
            r.1.is_keyframe == (data@.len() > 0 && data@[0] & 1 == 0),
    {
        let size = data.len() as u64;
        self.next_offset = self.next_offset + 12 + size;
        let is_keyframe = data.len() > 0 && data[0] & 1 == 0;
        (0, Packet { data, pts, duration: 0, is_keyframe })
    }
}

} // verus!
