//! H.264 bitstream framing and decoding.
//!
//! MP4 stores H.264 as AVCC (each NAL unit behind a 4-byte big-endian
//! length); raw streams use Annex B (each NAL unit behind a start code).
//! Decoding goes through OpenH264, which takes Annex B.

use vstd::prelude::*;
use vstd::string::StringExecFns;

use openh264::formats::YUVSource;

use crate::bytes::{append, be32_spec, lemma_be32_roundtrip, read_be32};
use crate::error::Error;
use crate::frame::{Frame, PixelFormat};
use crate::video::{Packet, VideoFrame};

verus! {

/// The 4-byte Annex B start code.
pub const START_CODE: [u8; 4] = [0, 0, 0, 1];

/// Whether `data` already begins with a 4- or 3-byte start code.
pub open spec fn starts_annex_b(data: Seq<u8>) -> bool {
    (data.len() >= 4 && data[0] == 0 && data[1] == 0 && data[2] == 0 && data[3] == 1) || (
    data.len() >= 3 && data[0] == 0 && data[1] == 0 && data[2] == 1)
}

/// The Annex B form of the length-prefixed NAL units of `data` from `pos`
/// on: each unit behind a start code, stopping at the first length prefix
/// that is cut short or runs past the end.
pub open spec fn avcc_units(data: Seq<u8>, pos: int) -> Seq<u8>
    decreases data.len() - pos,
{
    if pos < 0 || pos + 4 > data.len() {
        Seq::empty()
    } else {
        let n = read_be32(data.subrange(pos, pos + 4));
        if pos + 4 + n > data.len() {
            Seq::empty()
        } else {
            START_CODE@ + data.subrange(pos + 4, pos + 4 + n) + avcc_units(data, pos + 4 + n)
        }
    }
}

/// `data` in Annex B form: as it is when it already starts with a start
/// code or when no length-prefixed unit can be read from it.
pub open spec fn annex_b(data: Seq<u8>) -> Seq<u8> {
    if starts_annex_b(data) || avcc_units(data, 0).len() == 0 {
        data
    } else {
        avcc_units(data, 0)
    }
}

/// Ensure NAL data is in Annex B format (start-code prefixed): data that
/// already starts with a start code is kept, otherwise its 4-byte length
/// prefixes are replaced by start codes.
pub fn ensure_annex_b(data: &[u8]) -> (r: Vec<u8>)
    ensures
        r@ == annex_b(data@),
{
    let len = data.len();
    if (len >= 4 && data[0] == 0 && data[1] == 0 && data[2] == 0 && data[3] == 1) || (len >= 3
        && data[0] == 0 && data[1] == 0 && data[2] == 1) {
        let mut copy: Vec<u8> = Vec::new();
        append(&mut copy, data);
        return copy;
    }
    let mut out: Vec<u8> = Vec::new();
    let mut pos: usize = 0;
    while len >= 4 && pos <= len - 4
        invariant
            len == data@.len(),
            pos <= len,
            out@ + avcc_units(data@, pos as int) == avcc_units(data@, 0),
        ensures
            out@ == avcc_units(data@, 0),
        decreases len - pos,
    {
        let n = (data[pos] as u64) * 0x100_0000 + (data[pos + 1] as u64) * 0x1_0000
            + (data[pos + 2] as u64) * 0x100 + data[pos + 3] as u64;
        proof {
            let h = data@.subrange(pos as int, pos + 4);
            assert(h[0] == data@[pos as int] && h[1] == data@[pos + 1] && h[2] == data@[pos + 2]
                && h[3] == data@[pos + 3]);
            assert(n == read_be32(h));
        }
        let start = pos + 4;
        if n > (len - start) as u64 {
            proof {
                assert(avcc_units(data@, pos as int) =~= Seq::empty());
                assert(out@ + avcc_units(data@, pos as int) =~= out@);
            }
            break;
        }
        let end = start + n as usize;
        let ghost before = out@;
        out.extend_from_slice(&START_CODE);
        out.extend_from_slice(&data[start..end]);
        proof {
            assert(out@ =~= before + START_CODE@ + data@.subrange(start as int, end as int));
            assert(out@ + avcc_units(data@, end as int) =~= before + avcc_units(data@, pos as int));
        }
        pos = end;
        proof {
            if !(len >= 4 && pos <= len - 4) {
                assert(avcc_units(data@, pos as int) =~= Seq::empty());
                assert(out@ + avcc_units(data@, pos as int) =~= out@);
            }
        }
    }
    if out.len() == 0 {
        let mut copy: Vec<u8> = Vec::new();
        append(&mut copy, data);
        copy
    } else {
        out
    }
}

proof fn lemma_avcc_units_head(data: Seq<u8>, pos: int)
    requires
        avcc_units(data, pos).len() > 0,
    ensures
        avcc_units(data, pos).len() >= 4,
        avcc_units(data, pos).subrange(0, 4) == START_CODE@,
{
    let u = avcc_units(data, pos);
    let n = read_be32(data.subrange(pos, pos + 4));
    let rest = data.subrange(pos + 4, pos + 4 + n) + avcc_units(data, pos + 4 + n);
    assert(u == START_CODE@ + rest);
    assert(u.subrange(0, 4) =~= START_CODE@);
}

/// Converting to Annex B is idempotent: converted data already starts with
/// a start code.
pub proof fn law_annex_b_idempotent(data: Seq<u8>)
    ensures
        annex_b(annex_b(data)) == annex_b(data),
{
    if !(starts_annex_b(data) || avcc_units(data, 0).len() == 0) {
        let out = avcc_units(data, 0);
        lemma_avcc_units_head(data, 0);
        assert(out[0] == 0 && out[1] == 0 && out[2] == 0 && out[3] == 1) by {
            assert(out.subrange(0, 4)[0] == out[0]);
            assert(out.subrange(0, 4)[1] == out[1]);
            assert(out.subrange(0, 4)[2] == out[2]);
            assert(out.subrange(0, 4)[3] == out[3]);
        }
        assert(starts_annex_b(out));
    }
}

/// NAL units laid out length-prefixed (AVCC): each unit behind its length
/// as a big-endian 32-bit value.
pub open spec fn avcc_framing(units: Seq<Seq<u8>>) -> Seq<u8>
    decreases units.len(),
{
    if units.len() == 0 {
        Seq::empty()
    } else {
        be32_spec(units[0].len() as u32) + units[0] + avcc_framing(units.drop_first())
    }
}

/// NAL units laid out in Annex B: each unit behind `00 00 00 01`.
pub open spec fn annex_b_framing(units: Seq<Seq<u8>>) -> Seq<u8>
    decreases units.len(),
{
    if units.len() == 0 {
        Seq::empty()
    } else {
        seq![0u8, 0u8, 0u8, 1u8] + units[0] + annex_b_framing(units.drop_first())
    }
}

/// Reading units from position `a.len() + q` of `a + b` is reading them from
/// position `q` of `b`.
proof fn lemma_avcc_units_shift(a: Seq<u8>, b: Seq<u8>, q: int)
    requires
        0 <= q <= b.len(),
    ensures
        avcc_units(a + b, a.len() + q) == avcc_units(b, q),
    decreases b.len() - q,
{
    let d = a + b;
    let pos = a.len() + q;
    if q + 4 <= b.len() {
        assert(d.subrange(pos, pos + 4) =~= b.subrange(q, q + 4));
        let n = read_be32(b.subrange(q, q + 4));
        if q + 4 + n <= b.len() {
            assert(d.subrange(pos + 4, pos + 4 + n) =~= b.subrange(q + 4, q + 4 + n));
            lemma_avcc_units_shift(a, b, q + 4 + n);
        }
    }
}

/// The length-prefixed units convert to the same units behind start codes.
proof fn lemma_avcc_to_annex_b(units: Seq<Seq<u8>>)
    requires
        forall|i: int| 0 <= i < units.len() ==> (#[trigger] units[i]).len() <= u32::MAX,
    ensures
        avcc_units(avcc_framing(units), 0) == annex_b_framing(units),
    decreases units.len(),
{
    if units.len() > 0 {
        let u = units[0];
        let rest = units.drop_first();
        assert forall|i: int| 0 <= i < rest.len() implies (#[trigger] rest[i]).len() <= u32::MAX by {
            assert(rest[i] == units[i + 1]);
        }
        lemma_avcc_to_annex_b(rest);
        let head = be32_spec(u.len() as u32) + u;
        let d = avcc_framing(units);
        assert(d == head + avcc_framing(rest));
        lemma_be32_roundtrip(u.len() as u32);
        assert(d.subrange(0, 4) =~= be32_spec(u.len() as u32));
        assert(d.subrange(4, 4 + u.len() as int) =~= u);
        lemma_avcc_units_shift(head, avcc_framing(rest), 0);
        assert(avcc_units(d, 4 + u.len() as int) == avcc_units(avcc_framing(rest), 0));
        assert(START_CODE@ =~= seq![0u8, 0u8, 0u8, 1u8]);
    }
}

/// Length-prefixed NAL units become the same units, in order, each behind
/// the start code `00 00 00 01`, when the first unit's length prefix does
/// not itself read as a start code (a length of 1, or of 256 to 511, whose
/// prefix bytes begin `00 00 00 01` or `00 00 01`: such data is taken to be
/// in Annex B already and kept).
pub proof fn law_avcc_becomes_annex_b(units: Seq<Seq<u8>>)
    requires
        units.len() > 0,
        forall|i: int| 0 <= i < units.len() ==> (#[trigger] units[i]).len() <= u32::MAX,
        units[0].len() != 1,
        !(256 <= units[0].len() <= 511),
    ensures
        annex_b(avcc_framing(units)) == annex_b_framing(units),
{
    lemma_avcc_to_annex_b(units);
    let d = avcc_framing(units);
    let l = units[0].len() as u32;
    let b = be32_spec(l);
    assert(d.subrange(0, 4) =~= b);
    assert(d[0] == b[0] && d[1] == b[1] && d[2] == b[2] && d[3] == b[3]);
    assert(!(b[0] == 0 && b[1] == 0 && b[2] == 0 && b[3] == 1) && !(b[0] == 0 && b[1] == 0 && b[2] == 1)) by {
        assert(!((l >> 24u32) as u8 == 0 && (l >> 16u32) as u8 == 0 && (l >> 8u32) as u8 == 0 && l as u8 == 1)
            && !((l >> 24u32) as u8 == 0 && (l >> 16u32) as u8 == 0 && (l >> 8u32) as u8 == 1)) by (bit_vector)
            requires
                l != 1u32,
                !(256u32 <= l && l <= 511u32),
        ;
    }
    assert(!starts_annex_b(d));
    assert(annex_b_framing(units).len() >= 4);
}

// ---------------------------------------------------------------------------
// Decoding through OpenH264.

#[verifier::external_type_specification]
#[verifier::external_body]
pub struct ExOpenH264Decoder(openh264::decoder::Decoder);

#[verifier::external_type_specification]
#[verifier::external_body]
pub struct ExOpenH264DecoderConfig(openh264::decoder::DecoderConfig);

/// Calls `openh264::decoder::Decoder::new`, the built-in decoder with
/// default settings; an error is rendered as its `Display` text. Nothing is
/// stated of the outcome: the source says only that the underlying library
/// has an error indication.
#[verifier::external_body]
fn new_openh264() -> (r: Result<openh264::decoder::Decoder, String>) {
    openh264::decoder::Decoder::new().map_err(|e| e.to_string())
}

/// Calls `openh264::decoder::Decoder::with_api_config` with the built-in
/// library (`OpenH264API::from_source`) and `cfg`; an error is rendered as
/// its `Display` text. Nothing is stated of the outcome.
#[verifier::external_body]
fn openh264_with_config(cfg: openh264::decoder::DecoderConfig) -> (r: Result<openh264::decoder::Decoder, String>) {
    let api = openh264::OpenH264API::from_source();
    openh264::decoder::Decoder::with_api_config(api, cfg).map_err(|e| e.to_string())
}

/// Calls `openh264::decoder::Decoder::decode` on `data`. A picture is
/// handed out as its `dimensions()` and the RGB bytes `write_rgb8` writes
/// into a buffer of `rgb8_len()` bytes (the picture borrows the decoder, so
/// the three calls stand together); `Ok(None)` when no picture is ready yet;
/// an error as its `Display` text. What comes back depends on the packets
/// decoded before, so nothing is stated of it. OpenH264 hands out I420
/// pictures only, the layout `write_rgb8` asserts.
#[verifier::external_body]
fn decode_h264(dec: &mut openh264::decoder::Decoder, data: &[u8]) -> (r: Result<Option<(usize, usize, Vec<u8>)>, String>) {
    match dec.decode(data) {
        Ok(Some(yuv)) => {
            let (w, h) = yuv.dimensions();
            let mut rgb = vec![0u8; yuv.rgb8_len()];
            yuv.write_rgb8(&mut rgb);
            Ok(Some((w, h, rgb)))
        },
        Ok(None) => Ok(None),
        Err(e) => Err(e.to_string()),
    }
}

/// The message for a packet that produced no picture.
pub open spec fn h264_no_frame_message() -> Seq<char> {
    "openh264: no frame produced for this NAL unit (SPS/PPS/buffered)"@
}

/// The result of decoding `packet` for each thing the decoder can give
/// back: a picture becomes an `Rgb8` frame with the packet's timing, no
/// picture and a decoder error become video errors.
pub fn frame_from_h264_output(out: Result<Option<(usize, usize, Vec<u8>)>, String>, packet: &Packet) -> (r:
    Result<VideoFrame, Error>)
    ensures
        match out {
            Ok(Some(p)) => r matches Ok(vf) && vf.frame.width == p.0 as u32 && vf.frame.height
                == p.1 as u32 && vf.frame.format == PixelFormat::Rgb8 && vf.frame.data@ == p.2@
                && vf.pts == packet.pts && vf.duration == packet.duration && vf.is_keyframe
                == packet.is_keyframe,
            Ok(None) => r matches Err(e) && e.is_video(h264_no_frame_message()),
            Err(m) => r matches Err(e) && e.is_video("openh264 decode: "@ + m@),
        },
{
    match out {
        Ok(Some(p)) => {
            let (w, h, rgb) = p;
            let frame = Frame::new(w as u32, h as u32, PixelFormat::Rgb8, rgb);
            Ok(VideoFrame::new(frame, packet.pts, packet.duration, packet.is_keyframe))
        },
        Ok(None) => Err(Error::Video(String::from_str("openh264: no frame produced for this NAL unit (SPS/PPS/buffered)"))),
        Err(m) => {
            let mut s = String::from_str("openh264 decode: ");
            s.append(m.as_str());
            Err(Error::Video(s))
        },
    }
}

/// What OpenH264 gave back for one call, as plain values: a picture's
/// width, height and RGB bytes, no picture, or an error's text.
pub open spec fn h264_output_view(out: Result<Option<(usize, usize, Vec<u8>)>, String>) -> Result<
    Option<(usize, usize, Seq<u8>)>,
    Seq<char>,
> {
    match out {
        Ok(Some(p)) => Ok(Some((p.0, p.1, p.2@))),
        Ok(None) => Ok(None),
        Err(m) => Err(m@),
    }
}

/// One call of the decoder: the bytes handed to OpenH264 and what it gave
/// back.
pub ghost struct H264Call {
    pub input: Seq<u8>,
    pub output: Result<Option<(usize, usize, Seq<u8>)>, Seq<char>>,
}

/// Whether `r` is what decoding `packet` yields when OpenH264 gave back
/// `out`: a picture becomes an `Rgb8` frame with the packet's timing, no
/// picture and a decoder error become video errors.
pub open spec fn h264_result(
    out: Result<Option<(usize, usize, Seq<u8>)>, Seq<char>>,
    packet: Packet,
    r: Result<VideoFrame, Error>,
) -> bool {
    match out {
        Ok(Some(p)) => r matches Ok(vf) && vf.frame.width == p.0 as u32 && vf.frame.height == p.1 as u32
            && vf.frame.format == PixelFormat::Rgb8 && vf.frame.data@ == p.2 && vf.pts == packet.pts
            && vf.duration == packet.duration && vf.is_keyframe == packet.is_keyframe,
        Ok(None) => r matches Err(e) && e.is_video(h264_no_frame_message()),
        Err(m) => r matches Err(e) && e.is_video("openh264 decode: "@ + m),
    }
}

/// H.264 decoder on top of OpenH264.
pub struct H264Decoder {
    inner: openh264::decoder::Decoder,
    /// Every call made to OpenH264's decoder, in order.
    calls: Ghost<Seq<H264Call>>,
}

/// The message for a decoder that could not be set up.
pub open spec fn h264_init_message(m: Seq<char>) -> Seq<char> {
    "openh264 init: "@ + m
}

impl H264Decoder {
    /// Every call made to OpenH264's decoder so far, in order.
    pub closed spec fn calls(&self) -> Seq<H264Call> {
        self.calls@
    }

    /// A decoder with OpenH264's default settings.
    pub fn new() -> (r: Result<H264Decoder, Error>)
        ensures
            r matches Ok(d) ==> d.calls() == Seq::<H264Call>::empty(),
            r matches Err(e) ==> exists|m: Seq<char>| e.is_video(h264_init_message(m)),
    {
        match new_openh264() {
            Ok(inner) => Ok(H264Decoder { inner, calls: Ghost(Seq::empty()) }),
            Err(m) => {
                let mut s = String::from_str("openh264 init: ");
                s.append(m.as_str());
                assert(s@ =~= h264_init_message(m@));
                Err(Error::Video(s))
            },
        }
    }

    /// A decoder with an explicit OpenH264 configuration.
    pub fn with_config(cfg: openh264::decoder::DecoderConfig) -> (r: Result<H264Decoder, Error>)
        ensures
            r matches Ok(d) ==> d.calls() == Seq::<H264Call>::empty(),
            r matches Err(e) ==> exists|m: Seq<char>| e.is_video(h264_init_message(m)),
    {
        match openh264_with_config(cfg) {
            Ok(inner) => Ok(H264Decoder { inner, calls: Ghost(Seq::empty()) }),
            Err(m) => {
                let mut s = String::from_str("openh264 init: ");
                s.append(m.as_str());
                assert(s@ =~= h264_init_message(m@));
                Err(Error::Video(s))
            },
        }
    }

    /// Decode one packet, AVCC or Annex B, into an `Rgb8` picture. The
    /// decoder is handed the packet in Annex B form; what it gives back is
    /// turned into the result by [`frame_from_h264_output`].
    pub fn decode_packet(&mut self, packet: &Packet) -> (r: Result<VideoFrame, Error>)
        ensures
            final(self).calls().len() == old(self).calls().len() + 1,
            final(self).calls().drop_last() == old(self).calls(),
            final(self).calls().last().input == annex_b(packet.data@),
            h264_result(final(self).calls().last().output, *packet, r),
            match r {
                Ok(vf) => vf.frame.format == PixelFormat::Rgb8 && vf.pts == packet.pts && vf.duration
                    == packet.duration && vf.is_keyframe == packet.is_keyframe,
                Err(e) => e.is_video(h264_no_frame_message()) || exists|m: Seq<char>|
                    e.is_video("openh264 decode: "@ + m),
            },
    {
        let data = ensure_annex_b(packet.data.as_slice());
        let out = decode_h264(&mut self.inner, data.as_slice());
        let ghost call = H264Call { input: data@, output: h264_output_view(out) };
        proof {
            self.calls@ = self.calls@.push(call);
            assert(self.calls@.drop_last() =~= old(self).calls@);
        }
        frame_from_h264_output(out, packet)
    }
}

} // verus!
