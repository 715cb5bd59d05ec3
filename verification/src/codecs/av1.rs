//! AV1 encoding on top of `rav1e`.

use vstd::prelude::*;
use vstd::string::StringExecFns;

use crate::error::Error;
use crate::frame::PixelFormat;
use crate::video::{EncodedPacket, PacketView, VideoFrame};

verus! {

// ---------------------------------------------------------------------------
// Calls into rav1e.

/// A `rav1e::Context<u8>`. Held opaquely: Verus refuses to declare the
/// context type, whose pixel parameter is bound by a rav1e trait.
#[verifier::external_body]
pub struct Av1Context {
    ctx: rav1e::Context<u8>,
}

/// Whether rav1e accepts the configuration `new_av1_context` builds:
/// `Config::validate` checks, for a configuration made by
/// `EncoderConfig::with_speed_preset` (not a still picture, square pixels,
/// no tiles, levels or colour description, one-pass rate control), only that
/// the width and height lie in 16..=65535 and that the time base's
/// numerator and denominator lie in 1..=u32::MAX.
pub open spec fn av1_config_accepted(width: u32, height: u32, fps_num: u64, fps_den: u64) -> bool {
    &&& 16 <= width <= 65535
    &&& 16 <= height <= 65535
    &&& 1 <= fps_num <= u32::MAX
    &&& 1 <= fps_den <= u32::MAX
}

/// Calls `rav1e::Config::new_context` on an encoder configuration made by
/// `EncoderConfig::with_speed_preset(speed)` with the given size, 4:2:0
/// chroma, base quantizer and time base `fps_den / fps_num`; an error is
/// rendered as its `Display` text. As its source shows, `new_context` fails
/// only when `validate` does (the quantizer is not validated: one of 255 or
/// more only turns off its quantizer cap), so it succeeds exactly on
/// [`av1_config_accepted`].
#[verifier::external_body]
fn new_av1_context(width: u32, height: u32, speed: u8, quantizer: usize, fps_num: u64, fps_den: u64) -> (r:
    Result<Av1Context, String>)
    ensures
        r is Ok <==> av1_config_accepted(width, height, fps_num, fps_den),
{
    let mut cfg = rav1e::EncoderConfig::with_speed_preset(speed);
    cfg.width = width as usize;
    cfg.height = height as usize;
    cfg.chroma_sampling = rav1e::color::ChromaSampling::Cs420;
    cfg.quantizer = quantizer;
    cfg.time_base.num = fps_den;
    cfg.time_base.den = fps_num;
    let c = rav1e::Config::new().with_encoder_config(cfg);
    c.new_context().map(|ctx| Av1Context { ctx }).map_err(|e| e.to_string())
}

/// What one `rav1e::Context::receive_packet` call gives.
#[derive(Debug)]
pub enum Av1Output {
    /// A packet: its data, the number of the input frame it encodes, and
    /// whether that frame is intra-only.
    Packet { data: Vec<u8>, frame_no: u64, keyframe: bool },
    LimitReached,
    NeedMoreData,
    Encoded,
    /// Any other status, by its `Debug` text.
    Other(String),
}

/// Calls `rav1e::Context::receive_packet`, telling its statuses apart.
#[verifier::external_body]
fn receive_av1(c: &mut Av1Context) -> (r: Av1Output) {
    match c.ctx.receive_packet() {
        Ok(p) => Av1Output::Packet { keyframe: p.frame_type.all_intra(), frame_no: p.input_frameno, data: p.data },
        Err(rav1e::EncoderStatus::LimitReached) => Av1Output::LimitReached,
        Err(rav1e::EncoderStatus::NeedMoreData) => Av1Output::NeedMoreData,
        Err(rav1e::EncoderStatus::Encoded) => Av1Output::Encoded,
        Err(e) => Av1Output::Other(format!("{e:?}")),
    }
}

/// Calls `rav1e::Context::send_frame` with a frame from `new_frame` whose
/// planes are filled by `copy_from_raw_u8` from `y`, `u` and `v` (row
/// strides `width` and `chroma_width`); an error is rendered as its `Debug`
/// text. `copy_from_raw_u8` asserts a nonzero stride.
#[verifier::external_body]
fn send_av1_planes(c: &mut Av1Context, y: &[u8], u: &[u8], v: &[u8], width: usize, chroma_width: usize) -> (r:
    Result<(), String>)
    requires
        width > 0,
        chroma_width > 0,
{
    let mut f = c.ctx.new_frame();
    f.planes[0].copy_from_raw_u8(y, width, 1);
    f.planes[1].copy_from_raw_u8(u, chroma_width, 1);
    f.planes[2].copy_from_raw_u8(v, chroma_width, 1);
    c.ctx.send_frame(f).map_err(|e| format!("{e:?}"))
}

/// Calls `rav1e::Context::flush`, which ends the input.
#[verifier::external_body]
fn flush_av1(c: &mut Av1Context) {
    c.ctx.flush()
}

// ---------------------------------------------------------------------------
// The encoder.

/// AV1 encoder: takes `Yuv420p` frames and produces AV1 packets. Speed runs
/// from 0 (slowest, best) to 10 (fastest).
pub struct Av1Encoder {
    ctx: Av1Context,
    frame_index: u64,
    /// Every frame handed to the encoder, in order, with its outcome.
    sent: Ghost<Seq<Av1Sent>>,
    /// Every output the encoder has handed back, in order.
    received: Ghost<Seq<Av1Output>>,
}

/// One frame handed to rav1e: its three planes, the luma and chroma row
/// strides, and the message it was refused with, if it was.
pub ghost struct Av1Sent {
    pub y: Seq<u8>,
    pub u: Seq<u8>,
    pub v: Seq<u8>,
    pub width: usize,
    pub chroma_width: usize,
    pub refused: Option<Seq<char>>,
}

/// Whether `s` holds the planes of a `width × height` 4:2:0 picture stored
/// in `data`: Y (`width × height` bytes), then U (`⌈width/2⌉ × ⌈height/2⌉`),
/// then the rest as V, with row strides `width` and `⌈width/2⌉`.
pub open spec fn yuv420_sent(s: Av1Sent, data: Seq<u8>, width: u32, height: u32) -> bool {
    let uv_w = (width as int + 1) / 2;
    let uv_h = (height as int + 1) / 2;
    let y_end = width as int * height as int;
    let u_end = y_end + uv_w * uv_h;
    &&& s.y == data.subrange(0, y_end)
    &&& s.u == data.subrange(y_end, u_end)
    &&& s.v == data.subrange(u_end, data.len() as int)
    &&& s.width == width
    &&& s.chroma_width == uv_w
}

/// The packets a run of encoder outputs carries, in order, as the encoder
/// hands them out: the packet's data, its input frame number as `pts`, one
/// frame of duration, stream 0.
pub open spec fn av1_packets(outs: Seq<Av1Output>) -> Seq<PacketView>
    decreases outs.len(),
{
    if outs.len() == 0 {
        Seq::empty()
    } else {
        let rest = av1_packets(outs.drop_last());
        match outs.last() {
            Av1Output::Packet { data, frame_no, keyframe } => rest.push(
                PacketView { stream_index: 0, pts: frame_no, duration: 1, data: data@, is_keyframe: keyframe },
            ),
            _ => rest,
        }
    }
}

/// The start of the message for a fatal encoder status.
pub open spec fn av1_drain_prefix(flushing: bool) -> Seq<char> {
    if flushing {
        "rav1e flush error: "@
    } else {
        "rav1e encode error: "@
    }
}

/// Draining the encoder received the outputs `outs` and returned `r`: it
/// polled at least once, went on past packets and "encoded" statuses only,
/// and stopped at the first other status, or after `u64::MAX` polls. A stop
/// because the encoder needs more data or reached its limit returns the
/// packets received; any other status is an error naming it.
pub open spec fn av1_drained(outs: Seq<Av1Output>, flushing: bool, r: Result<Vec<EncodedPacket>, Error>) -> bool {
    &&& outs.len() > 0
    &&& forall|i: int| 0 <= i < outs.len() - 1 ==> (#[trigger] outs[i] is Packet || outs[i] is Encoded)
    &&& match outs.last() {
        Av1Output::Other(m) => r matches Err(e) && e.is_video(av1_drain_prefix(flushing) + m@),
        last => {
            &&& last is LimitReached || last is NeedMoreData || outs.len() == u64::MAX
            &&& r matches Ok(v) && v@.map_values(|p: EncodedPacket| p@) == av1_packets(outs)
        },
    }
}

/// The text of an error `prefix` + `detail`.
fn message(prefix: &str, detail: &str) -> (r: String)
    ensures
        r@ == prefix@ + detail@,
{
    let mut s = String::from_str(prefix);
    s.append(detail);
    s
}

impl Av1Encoder {
    /// How many frames have been handed to the encoder.
    pub closed spec fn frames_sent(&self) -> u64 {
        self.frame_index
    }

    /// Every output the encoder has handed back so far, in order.
    pub closed spec fn received(&self) -> Seq<Av1Output> {
        self.received@
    }

    /// Every frame handed to the encoder so far, in order, with its outcome.
    pub closed spec fn sent(&self) -> Seq<Av1Sent> {
        self.sent@
    }

    /// An encoder for `width × height` frames at speed preset `speed`, base
    /// quantizer `quantizer` and nominal rate `fps_num / fps_den`.
    pub fn new(width: u32, height: u32, speed: u8, quantizer: usize, fps_num: u64, fps_den: u64) -> (r:
        Result<Av1Encoder, Error>)
        ensures
            r is Ok <==> av1_config_accepted(width, height, fps_num, fps_den),
            r matches Ok(e) ==> e.frames_sent() == 0 && e.sent() == Seq::<Av1Sent>::empty() && e.received()
                == Seq::<Av1Output>::empty(),
            r matches Err(e) ==> exists|m: Seq<char>| e.is_video("rav1e config error: "@ + m),
    {
        match new_av1_context(width, height, speed, quantizer, fps_num, fps_den) {
            Ok(ctx) => Ok(Av1Encoder { ctx, frame_index: 0, sent: Ghost(Seq::empty()), received: Ghost(Seq::empty()) }),
            Err(m) => {
                let e = Error::Video(message("rav1e config error: ", m.as_str()));
                assert(e.is_video("rav1e config error: "@ + m@));
                Err(e)
            },
        }
    }

    /// Drain what the encoder has ready: packets until it needs more input
    /// or is done; a fatal status is an error.
    fn collect_ready_packets(&mut self, flushing: bool) -> (r: Result<Vec<EncodedPacket>, Error>)
        ensures
            final(self).frame_index == old(self).frame_index,
            final(self).sent() == old(self).sent(),
            final(self).received().len() >= old(self).received().len(),
            final(self).received().subrange(0, old(self).received().len() as int) == old(self).received(),
            av1_drained(final(self).received().skip(old(self).received().len() as int), flushing, r),
            r matches Ok(v) ==> forall|i: int| 0 <= i < v@.len() ==> (#[trigger] v@[i]).duration == 1
                && v@[i].stream_index == 0,
    {
        let ghost before = self.received@;
        let mut out: Vec<EncodedPacket> = Vec::new();
        // The encoder signals the end of its output; the poll count is only
        // bounded so that the loop provably ends.
        let mut polls: u64 = u64::MAX;
        assert(self.received@.skip(before.len() as int) =~= Seq::<Av1Output>::empty());
        assert(out@.map_values(|p: EncodedPacket| p@) =~= Seq::<PacketView>::empty());
        while polls > 0
            invariant
                self.frame_index == old(self).frame_index,
                self.sent@ == old(self).sent@,
                before == old(self).received@,
                self.received@.len() >= before.len(),
                self.received@.subrange(0, before.len() as int) == before,
                self.received@.skip(before.len() as int).len() == u64::MAX - polls,
                forall|i: int|
                    0 <= i < self.received@.skip(before.len() as int).len() ==> (
                    #[trigger] self.received@.skip(before.len() as int)[i] is Packet || self.received@.skip(
                        before.len() as int,
                    )[i] is Encoded),
                out@.map_values(|p: EncodedPacket| p@) == av1_packets(self.received@.skip(before.len() as int)),
                forall|i: int| 0 <= i < out@.len() ==> (#[trigger] out@[i]).duration == 1
                    && out@[i].stream_index == 0,
            decreases polls,
        {
            polls = polls - 1;
            let o = receive_av1(&mut self.ctx);
            let ghost polled = self.received@.skip(before.len() as int);
            proof {
                self.received@ = self.received@.push(o);
                assert(self.received@.skip(before.len() as int) =~= polled.push(o));
                assert(self.received@.subrange(0, before.len() as int) =~= before);
                assert(polled.push(o).drop_last() =~= polled);
            }
            match o {
                Av1Output::Packet { data, frame_no, keyframe } => {
                    let ghost pv = PacketView {
                        stream_index: 0,
                        pts: frame_no,
                        duration: 1,
                        data: data@,
                        is_keyframe: keyframe,
                    };
                    let ghost prev = out@;
                    out.push(EncodedPacket { data, pts: frame_no, duration: 1, is_keyframe: keyframe, stream_index: 0 });
                    proof {
                        assert(out@.map_values(|p: EncodedPacket| p@) =~= prev.map_values(
                            |p: EncodedPacket| p@,
                        ).push(pv));
                    }
                },
                Av1Output::LimitReached => {
                    return Ok(out);
                },
                Av1Output::NeedMoreData => {
                    return Ok(out);
                },
                Av1Output::Encoded => {},
                Av1Output::Other(m) => {
                    let prefix = if flushing {
                        "rav1e flush error: "
                    } else {
                        "rav1e encode error: "
                    };
                    return Err(Error::Video(message(prefix, m.as_str())));
                },
            }
        }
        Ok(out)
    }

    /// Encode one `Yuv420p` frame: its Y plane (`width × height` bytes), then
    /// U and V (each `⌈width/2⌉ × ⌈height/2⌉`) are handed to the encoder,
    /// and the packets it has ready come back.
    pub fn encode(&mut self, frame: &VideoFrame) -> (r: Result<Vec<EncodedPacket>, Error>)
        requires
            old(self).frames_sent() < u64::MAX,
            frame.frame.format == PixelFormat::Yuv420p ==> frame.frame.data@.len()
                >= PixelFormat::Yuv420p.spec_data_len(frame.frame.width, frame.frame.height),
            frame.frame.format == PixelFormat::Yuv420p ==> frame.frame.width > 0,
        ensures
            frame.frame.format != PixelFormat::Yuv420p ==> (r matches Err(e) && e is Video
                && final(self).frames_sent() == old(self).frames_sent() && final(self).sent() == old(self).sent()
                && final(self).received() == old(self).received()),
            frame.frame.format == PixelFormat::Yuv420p ==> ({
                let s = final(self).sent().last();
                &&& final(self).sent() == old(self).sent().push(s)
                &&& yuv420_sent(s, frame.frame.data@, frame.frame.width, frame.frame.height)
                &&& match s.refused {
                    Some(m) => {
                        &&& r matches Err(e) && e.is_video("rav1e send_frame: "@ + m)
                        &&& final(self).frames_sent() == old(self).frames_sent()
                        &&& final(self).received() == old(self).received()
                    },
                    None => {
                        &&& final(self).frames_sent() == old(self).frames_sent() + 1
                        &&& final(self).received().len() >= old(self).received().len()
                        &&& final(self).received().subrange(0, old(self).received().len() as int)
                            == old(self).received()
                        &&& av1_drained(final(self).received().skip(old(self).received().len() as int), false, r)
                    },
                }
            }),
            r matches Ok(v) ==> final(self).frames_sent() == old(self).frames_sent() + 1 && forall|i: int|
                0 <= i < v@.len() ==> (#[trigger] v@[i]).duration == 1 && v@[i].stream_index == 0,
    {
        match frame.frame.format {
            PixelFormat::Yuv420p => {},
            _ => {
                return Err(Error::Video(String::from_str("Av1Encoder expects Yuv420p input")));
            },
        }
        let w = frame.frame.width as u64;
        let h = frame.frame.height as u64;
        let uv_w = (w + 1) / 2;
        let uv_h = (h + 1) / 2;
        proof {
            assert(w * h <= 0xffff_ffff * 0xffff_ffff) by (nonlinear_arith)
                requires
                    w <= 0xffff_ffff,
                    h <= 0xffff_ffff,
            ;
            assert(uv_w * uv_h <= 0x8000_0000 * 0x8000_0000) by (nonlinear_arith)
                requires
                    uv_w <= 0x8000_0000,
                    uv_h <= 0x8000_0000,
            ;
        }
        let y_end = w * h;
        let len = frame.frame.data.len();
        let uv = uv_w * uv_h;
        proof {
            assert(PixelFormat::Yuv420p.spec_data_len(frame.frame.width, frame.frame.height) == y_end + 2 * uv);
            assert(y_end + uv <= len);
        }
        let u_end = y_end + uv;
        let y_plane = crate::bytes::subslice(frame.frame.data.as_slice(), 0, y_end as usize);
        let u_plane = crate::bytes::subslice(frame.frame.data.as_slice(), y_end as usize, u_end as usize);
        let v_plane = crate::bytes::subslice(frame.frame.data.as_slice(), u_end as usize, len);
        let sent = send_av1_planes(&mut self.ctx, y_plane, u_plane, v_plane, w as usize, uv_w as usize);
        let ghost record = Av1Sent {
            y: y_plane@,
            u: u_plane@,
            v: v_plane@,
            width: w as usize,
            chroma_width: uv_w as usize,
            refused: if sent is Ok {
                None
            } else {
                Some(sent->Err_0@)
            },
        };
        proof {
            self.sent@ = self.sent@.push(record);
        }
        match sent {
            Ok(()) => {},
            Err(m) => {
                let e = Error::Video(message("rav1e send_frame: ", m.as_str()));
                assert(e.is_video("rav1e send_frame: "@ + m@));
                return Err(e);
            },
        }
        self.frame_index = self.frame_index + 1;
        self.collect_ready_packets(false)
    }

    /// Flush: end the input and drain every remaining packet.
    pub fn flush(&mut self) -> (r: Result<Vec<EncodedPacket>, Error>)
        ensures
            final(self).frames_sent() == old(self).frames_sent(),
            final(self).sent() == old(self).sent(),
            final(self).received().len() >= old(self).received().len(),
            final(self).received().subrange(0, old(self).received().len() as int) == old(self).received(),
            av1_drained(final(self).received().skip(old(self).received().len() as int), true, r),
            r matches Ok(v) ==> forall|i: int| 0 <= i < v@.len() ==> (#[trigger] v@[i]).duration == 1
                && v@[i].stream_index == 0,
    {
        flush_av1(&mut self.ctx);
        self.collect_ready_packets(true)
    }

    /// The codec's name.
    pub fn codec_name(&self) -> (r: &'static str)
        ensures
            r@ == "AV1"@,
    {
        "AV1"
    }
}

} // verus!
