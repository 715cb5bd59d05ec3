//! GIF decoding on top of the `gif` crate.
//!
//! The crate decodes each frame to RGBA; the frames are composited onto a
//! screen-sized canvas in order, and each composited canvas is handed out as
//! an `Rgb8` frame with the frame's delay.

use vstd::prelude::*;
use vstd::string::StringExecFns;

use crate::error::Error;
use crate::frame::{Frame, PixelFormat};

verus! {

// ---------------------------------------------------------------------------
// Calls into the gif crate.

/// One frame as the gif crate decodes it: its delay, its rectangle on the
/// screen and its pixels (RGBA, row by row).
#[derive(Debug)]
pub struct RawGifFrame {
    pub delay: u16,
    pub left: u16,
    pub top: u16,
    pub width: u16,
    pub height: u16,
    pub buffer: Vec<u8>,
}

/// The plain values of a [`RawGifFrame`].
pub ghost struct GifFrameView {
    pub delay: u16,
    pub left: u16,
    pub top: u16,
    pub width: u16,
    pub height: u16,
    pub buffer: Seq<u8>,
}

impl View for RawGifFrame {
    type V = GifFrameView;

    open spec fn view(&self) -> GifFrameView {
        GifFrameView {
            delay: self.delay,
            left: self.left,
            top: self.top,
            width: self.width,
            height: self.height,
            buffer: self.buffer@,
        }
    }
}

/// The plain values of a list of frames.
pub open spec fn raw_views(s: Seq<RawGifFrame>) -> Seq<GifFrameView> {
    s.map_values(|f: RawGifFrame| f@)
}

/// What the gif crate reads from a GIF file, in RGBA output: the logical
/// screen's width and height and every frame in order; or an error's text,
/// marked `true` when the header could not be read and `false` when a frame
/// could not.
pub uninterp spec fn gif_read(data: Seq<u8>) -> Result<(u16, u16, Seq<GifFrameView>), (bool, Seq<char>)>;

/// Reads a GIF with the gif crate: `DecodeOptions::new` with
/// `set_color_output(ColorOutput::RGBA)`, `read_info` on the bytes, then
/// `read_next_frame` until it gives `None`, copying each frame out, and the
/// decoder's `width` and `height`. An error is rendered as its `Display`
/// text. The result is named by [`gif_read`].
#[verifier::external_body]
fn read_gif(data: &[u8]) -> (r: Result<(u16, u16, Vec<RawGifFrame>), (bool, String)>)
    ensures
        match (r, gif_read(data@)) {
            (Ok(got), Ok(want)) => got.0 == want.0 && got.1 == want.1 && raw_views(got.2@) == want.2,
            (Err(got), Err(want)) => got.0 == want.0 && got.1@ == want.1,
            _ => false,
        },
{
    let mut o = gif::DecodeOptions::new();
    o.set_color_output(gif::ColorOutput::RGBA);
    let mut d = o.read_info(data).map_err(|e| (true, e.to_string()))?;
    let mut frames = Vec::new();
    while let Some(f) = d.read_next_frame().map_err(|e| (false, e.to_string()))? {
        let buffer = f.buffer.to_vec();
        frames.push(RawGifFrame { delay: f.delay, left: f.left, top: f.top, width: f.width, height: f.height, buffer });
    }
    Ok((d.width(), d.height(), frames))
}

// ---------------------------------------------------------------------------
// Compositing.

/// A single GIF frame with its display delay.
#[derive(Debug, Clone)]
pub struct GifFrame {
    /// Decoded pixels in Rgb8 format.
    pub frame: Frame,
    /// Frame delay in centiseconds (1/100 s). 0 means "as fast as possible".
    pub delay_cs: u16,
}

/// The canvas byte that pixel `k` of a frame lands on: the frame is placed
/// at (`left`, `top`) on a screen `screen_w` pixels wide, 4 bytes a pixel.
pub open spec fn landing(k: int, frame_w: int, left: int, top: int, screen_w: int) -> int {
    ((top + k / frame_w) * screen_w + (left + k % frame_w)) * 4
}

/// The canvas after blitting pixel `k` of the frame: a pixel with zero alpha
/// is skipped, and so is one that would land past the canvas' end; otherwise
/// its colour is copied and the canvas made opaque there.
pub open spec fn blit_pixel(canvas: Seq<u8>, screen_w: int, f: GifFrameView, k: int) -> Seq<u8> {
    let s = k * 4;
    let d = landing(k, f.width as int, f.left as int, f.top as int, screen_w);
    if f.buffer[s + 3] == 0 || d < 0 || d + 3 >= canvas.len() {
        canvas
    } else {
        canvas.update(d, f.buffer[s]).update(d + 1, f.buffer[s + 1]).update(d + 2, f.buffer[s + 2]).update(
            d + 3,
            255,
        )
    }
}

/// The canvas after blitting the frame's first `n` pixels, row by row.
pub open spec fn blit_upto(canvas: Seq<u8>, screen_w: int, f: GifFrameView, n: nat) -> Seq<u8>
    decreases n,
{
    if n == 0 {
        canvas
    } else {
        blit_pixel(blit_upto(canvas, screen_w, f, (n - 1) as nat), screen_w, f, n - 1)
    }
}

/// The canvas after blitting the whole frame.
pub open spec fn blit_frame(canvas: Seq<u8>, screen_w: int, f: GifFrameView) -> Seq<u8> {
    blit_upto(canvas, screen_w, f, (f.width * f.height) as nat)
}

/// The canvas after the first `n` frames of `raws`, starting from a
/// transparent black screen `screen_w` × `screen_h`.
pub open spec fn gif_canvas(screen_w: nat, screen_h: nat, raws: Seq<GifFrameView>, n: nat) -> Seq<u8>
    decreases n,
{
    if n == 0 {
        Seq::new(screen_w * screen_h * 4, |i: int| 0u8)
    } else {
        blit_frame(gif_canvas(screen_w, screen_h, raws, (n - 1) as nat), screen_w as int, raws[n - 1])
    }
}

/// What decoding gives for the frames `raws` that the gif crate decoded: the
/// `i`-th output is the screen after compositing frames `0..=i`, in RGB,
/// with frame `i`'s delay.
pub open spec fn gif_outputs_match(frames: Seq<GifFrame>, raws: Seq<GifFrameView>) -> bool {
    &&& frames.len() == raws.len()
    &&& forall|i: int|
        0 <= i < frames.len() ==> {
            let f = #[trigger] frames[i];
            &&& f.delay_cs == raws[i].delay
            &&& f.frame.width == frames[0].frame.width
            &&& f.frame.height == frames[0].frame.height
            &&& f.frame.format == PixelFormat::Rgb8
            &&& f.frame.data@ == rgba_to_rgb(
                gif_canvas(f.frame.width as nat, f.frame.height as nat, raws, (i + 1) as nat),
            )
        }
}

/// RGBA pixels with the alpha bytes dropped.
pub open spec fn rgba_to_rgb(p: Seq<u8>) -> Seq<u8> {
    Seq::new(((p.len() / 4) * 3) as nat, |i: int| p[(i / 3) * 4 + i % 3])
}

proof fn lemma_gif_canvas_prefix(
    screen_w: nat,
    screen_h: nat,
    a: Seq<GifFrameView>,
    b: Seq<GifFrameView>,
    n: nat,
)
    requires
        n <= a.len() <= b.len(),
        forall|i: int| 0 <= i < a.len() ==> a[i] == b[i],
    ensures
        gif_canvas(screen_w, screen_h, b, n) == gif_canvas(screen_w, screen_h, a, n),
    decreases n,
{
    if n > 0 {
        lemma_gif_canvas_prefix(screen_w, screen_h, a, b, (n - 1) as nat);
    }
}

proof fn lemma_blit_len(canvas: Seq<u8>, screen_w: int, f: GifFrameView, n: nat)
    ensures
        blit_upto(canvas, screen_w, f, n).len() == canvas.len(),
    decreases n,
{
    if n > 0 {
        lemma_blit_len(canvas, screen_w, f, (n - 1) as nat);
    }
}

/// Blit a decoded frame onto an RGBA canvas of a screen `screen_w` pixels
/// wide.
pub fn composite_gif_frame(canvas: &mut Vec<u8>, screen_w: u32, f: &RawGifFrame)
    requires
        f.buffer@.len() == f.width * f.height * 4,
    ensures
        final(canvas)@ == blit_frame(old(canvas)@, screen_w as int, f@),
{
    let fw = f.width as u64;
    let fh = f.height as u64;
    proof {
        assert(fw * fh <= 0xffff * 0xffff) by (nonlinear_arith)
            requires
                fw <= 0xffff,
                fh <= 0xffff,
        ;
    }
    let n = fw * fh;
    let sw = screen_w as u64;
    let blen = f.buffer.len();
    let mut k: u64 = 0;
    while k < n
        invariant
            blen == f.buffer@.len(),
            fw == f.width,
            fh == f.height,
            n == fw * fh,
            n <= 0xffff * 0xffff,
            f.buffer@.len() == n * 4,
            sw == screen_w,
            k <= n,
            canvas@ == blit_upto(old(canvas)@, screen_w as int, f@, k as nat),
        decreases n - k,
    {
        proof {
            lemma_blit_len(old(canvas)@, screen_w as int, f@, k as nat);
            assert(fw > 0) by (nonlinear_arith)
                requires
                    k < n,
                    n == fw * fh,
            ;
            assert(k / fw <= 0xffff && k % fw < fw) by (nonlinear_arith)
                requires
                    k < n,
                    n == fw * fh,
                    fw > 0,
                    fh <= 0xffff,
            ;
        }
        proof {
            assert(k * 4 + 3 < n * 4) by (nonlinear_arith)
                requires
                    k < n,
            ;
        }
        let ghost c0 = canvas@;
        let s = (k * 4) as usize;
        if f.buffer[s + 3] != 0 {
            let row = k / fw;
            let col = k % fw;
            let y = f.top as u64 + row;
            let x = f.left as u64 + col;
            proof {
                assert(y * sw <= 0x2_0000 * 0xffff_ffff) by (nonlinear_arith)
                    requires
                        y <= 0x2_0000,
                        sw <= 0xffff_ffff,
                ;
            }
            let d64 = (y * sw + x) * 4;
            proof {
                assert(d64 == landing(k as int, fw as int, f.left as int, f.top as int, screen_w as int));
            }
            if d64 + 3 < canvas.len() as u64 {
                let d = d64 as usize;
                canvas.set(d, f.buffer[s]);
                canvas.set(d + 1, f.buffer[s + 1]);
                canvas.set(d + 2, f.buffer[s + 2]);
                canvas.set(d + 3, 255);
            }
        }
        proof {
            assert(canvas@ == blit_pixel(c0, screen_w as int, f@, k as int));
        }
        k = k + 1;
    }
}

/// The RGB bytes of an RGBA buffer (alpha dropped).
pub fn canvas_rgb(canvas: &Vec<u8>) -> (r: Vec<u8>)
    ensures
        r@ == rgba_to_rgb(canvas@),
{
    let len = canvas.len();
    let n = len / 4;
    let mut out: Vec<u8> = Vec::new();
    let mut i: usize = 0;
    while i < n
        invariant
            len == canvas@.len(),
            n == canvas@.len() / 4,
            i <= n,
            out@ =~= rgba_to_rgb(canvas@).take((i * 3) as int),
        decreases n - i,
    {
        assert(4 * i + 3 < canvas@.len());
        out.push(canvas[4 * i]);
        out.push(canvas[4 * i + 1]);
        out.push(canvas[4 * i + 2]);
        i = i + 1;
    }
    out
}

/// Whether every frame's pixels fill its rectangle (4 bytes a pixel).
pub open spec fn frames_fill(raws: Seq<GifFrameView>) -> bool {
    forall|i: int| 0 <= i < raws.len() ==> #[trigger] raws[i].buffer.len() == raws[i].width * raws[i].height * 4
}

/// Decode all frames of a GIF: each frame is composited over the frames
/// before it on a screen-sized canvas, and handed out as the whole screen in
/// `Rgb8` with the frame's delay. A GIF without frames is an error.
pub fn decode_gif(data: &[u8]) -> (r: Result<Vec<GifFrame>, Error>)
    ensures
        match gif_read(data@) {
            Err(e) => r matches Err(x) && x.is_unsupported(
                (if e.0 {
                    "gif decode error: "@
                } else {
                    "gif frame error: "@
                }) + e.1,
            ),
            Ok(g) => if g.0 * g.1 * 4 > usize::MAX {
                r matches Err(x) && x.is_unsupported("gif decode error: image is too large"@)
            } else if !frames_fill(g.2) {
                r matches Err(x) && x.is_unsupported("gif frame error: odd-sized buffer"@)
            } else if g.2.len() == 0 {
                r matches Err(x) && x.is_unsupported("GIF contained no frames"@)
            } else {
                r matches Ok(frames) && frames@.len() > 0 && frames@[0].frame.width == g.0
                    && frames@[0].frame.height == g.1 && gif_outputs_match(frames@, g.2)
            },
        },
{
    let (w16, h16, raw) = match read_gif(data) {
        Ok(g) => g,
        Err(e) => {
            let mut s = if e.0 {
                String::from_str("gif decode error: ")
            } else {
                String::from_str("gif frame error: ")
            };
            s.append(e.1.as_str());
            return Err(Error::UnsupportedFormat(s));
        },
    };
    let ghost raws = raw_views(raw@);
    let screen_w = w16 as u32;
    let screen_h = h16 as u32;
    proof {
        assert(screen_w * screen_h <= 0xffff * 0xffff) by (nonlinear_arith)
            requires
                screen_w <= 0xffff,
                screen_h <= 0xffff,
        ;
    }
    let pixels = (screen_w as u64) * (screen_h as u64) * 4;
    if pixels > usize::MAX as u64 {
        return Err(Error::UnsupportedFormat(String::from_str("gif decode error: image is too large")));
    }
    let mut k: usize = 0;
    while k < raw.len()
        invariant
            k <= raw@.len(),
            raws == raw_views(raw@),
            w16 * h16 * 4 <= usize::MAX,
            gif_read(data@) matches Ok(g) && g.0 == w16 && g.1 == h16 && g.2 == raws,
            forall|i: int| 0 <= i < k ==> #[trigger] raws[i].buffer.len() == raws[i].width * raws[i].height * 4,
        decreases raw@.len() - k,
    {
        let f = &raw[k];
        proof {
            assert(f.width * f.height <= 0xffff * 0xffff) by (nonlinear_arith)
                requires
                    f.width <= 0xffff,
                    f.height <= 0xffff,
            ;
        }
        let want = (f.width as u64) * (f.height as u64) * 4;
        if f.buffer.len() as u64 != want {
            proof {
                assert(raws[k as int] == f@);
                assert(raws[k as int].buffer.len() != raws[k as int].width * raws[k as int].height * 4);
                assert(!frames_fill(raws));
            }
            return Err(Error::UnsupportedFormat(String::from_str("gif frame error: odd-sized buffer")));
        }
        k = k + 1;
    }
    if raw.len() == 0 {
        return Err(Error::UnsupportedFormat(String::from_str("GIF contained no frames")));
    }
    let mut canvas: Vec<u8> = vec![0u8; pixels as usize];
    let mut frames: Vec<GifFrame> = Vec::new();
    proof {
        assert(canvas@ =~= gif_canvas(screen_w as nat, screen_h as nat, raws, 0));
    }
    let mut n: usize = 0;
    while n < raw.len()
        invariant
            n <= raw@.len(),
            raws == raw_views(raw@),
            w16 * h16 * 4 <= usize::MAX,
            gif_read(data@) matches Ok(g) && g.0 == w16 && g.1 == h16 && g.2 == raws,
            frames_fill(raws),
            canvas@.len() == screen_w * screen_h * 4,
            n == frames@.len(),
            canvas@ == gif_canvas(screen_w as nat, screen_h as nat, raws, n as nat),
            forall|i: int|
                0 <= i < frames@.len() ==> {
                    let g = #[trigger] frames@[i];
                    &&& g.delay_cs == raws[i].delay
                    &&& g.frame.data@ == rgba_to_rgb(
                        gif_canvas(screen_w as nat, screen_h as nat, raws, (i + 1) as nat),
                    )
                },
            forall|i: int|
                0 <= i < frames@.len() ==> (#[trigger] frames@[i]).frame.format == PixelFormat::Rgb8
                    && frames@[i].frame.width == screen_w && frames@[i].frame.height == screen_h
                    && frames@[i].frame.data@.len() == screen_w * screen_h * 3,
        decreases raw@.len() - n,
    {
        let f = &raw[n];
        proof {
            assert(raws[n as int] == f@);
            assert(raws[n as int].buffer.len() == raws[n as int].width * raws[n as int].height * 4);
        }
        let ghost before = canvas@;
        composite_gif_frame(&mut canvas, screen_w, f);
        proof {
            lemma_blit_len(before, screen_w as int, f@, (f.width * f.height) as nat);
        }
        let rgb = canvas_rgb(&canvas);
        proof {
            assert(rgb@.len() == screen_w * screen_h * 3) by (nonlinear_arith)
                requires
                    rgb@.len() == (canvas@.len() / 4) * 3,
                    canvas@.len() == screen_w * screen_h * 4,
            ;
        }
        frames.push(GifFrame { frame: Frame::new(screen_w, screen_h, PixelFormat::Rgb8, rgb), delay_cs: f.delay });
        n = n + 1;
    }
    proof {
        assert(gif_outputs_match(frames@, raws));
    }
    Ok(frames)
}

// ---------------------------------------------------------------------------
// Encoding choices.

/// How often an animated GIF loops.
#[derive(Debug, Clone, Copy, PartialEq, Eq, Structural)]
pub enum GifRepeat {
    /// Loop this many times.
    Finite(u16),
    /// Loop forever.
    Infinite,
}

/// Options for GIF encoding.
#[derive(Debug, Clone, Copy)]
pub struct GifEncodeOptions {
    /// Number of colours in the palette (kept within 2–256).
    pub palette_size: usize,
    /// Loop count.
    pub repeat: GifRepeat,
    /// Frame delay in centiseconds for a frame that does not give one.
    pub default_delay_cs: u16,
}

impl Default for GifEncodeOptions {
    fn default() -> (r: Self)
        ensures
            r.palette_size == 256,
            r.repeat == GifRepeat::Infinite,
            r.default_delay_cs == 10,
    {
        GifEncodeOptions { palette_size: 256, repeat: GifRepeat::Infinite, default_delay_cs: 10 }
    }
}

/// The palette size used: the requested one kept within 2–256.
pub fn palette_size(opts: &GifEncodeOptions) -> (r: usize)
    ensures
        r == (if opts.palette_size < 2 {
            2
        } else if opts.palette_size > 256 {
            256
        } else {
            opts.palette_size
        }),
{
    if opts.palette_size < 2 {
        2
    } else if opts.palette_size > 256 {
        256
    } else {
        opts.palette_size
    }
}

/// The delay a frame is written with: its own, or the default when it has
/// none.
pub fn frame_delay(frame: &GifFrame, opts: &GifEncodeOptions) -> (r: u16)
    ensures
        r == (if frame.delay_cs > 0 {
            frame.delay_cs
        } else {
            opts.default_delay_cs
        }),
{
    if frame.delay_cs > 0 {
        frame.delay_cs
    } else {
        opts.default_delay_cs
    }
}

/// The name a pixel format is reported by.
pub open spec fn pixel_format_name(f: PixelFormat) -> Seq<char> {
    match f {
        PixelFormat::Rgb8 => "Rgb8"@,
        PixelFormat::Rgba8 => "Rgba8"@,
        PixelFormat::Gray8 => "Gray8"@,
        PixelFormat::GrayA8 => "GrayA8"@,
        PixelFormat::Yuv420p => "Yuv420p"@,
        PixelFormat::Yuv420p10 => "Yuv420p10"@,
        PixelFormat::Yuv420p12 => "Yuv420p12"@,
        PixelFormat::Yuv422p => "Yuv422p"@,
        PixelFormat::Yuv444p => "Yuv444p"@,
    }
}

/// RGB pixels with an opaque alpha byte added to each.
pub open spec fn rgb_to_rgba(p: Seq<u8>) -> Seq<u8> {
    Seq::new((p.len() / 3) * 4, |i: int| if i % 4 == 3 { 255u8 } else { p[(i / 4) * 3 + i % 4] })
}

/// The RGBA pixels a frame is quantised from: RGB gains an opaque alpha,
/// RGBA is taken as it is, other layouts are refused.
pub fn gif_frame_rgba(frame: &Frame) -> (r: Result<Vec<u8>, Error>)
    ensures
        frame.format == PixelFormat::Rgb8 ==> (r matches Ok(v) && v@ == rgb_to_rgba(frame.data@)),
        frame.format == PixelFormat::Rgba8 ==> (r matches Ok(v) && v@ == frame.data@),
        !(frame.format == PixelFormat::Rgb8 || frame.format == PixelFormat::Rgba8) ==> (r matches Err(e)
            && e.is_filter("encode_gif: frame must be Rgb8/Rgba8, got "@ + pixel_format_name(frame.format))),
{
    match frame.format {
        PixelFormat::Rgb8 => {
            let len = frame.data.len();
            let n = len / 3;
            let mut out: Vec<u8> = Vec::new();
            let mut i: usize = 0;
            while i < n
                invariant
                    len == frame.data@.len(),
                    n == len / 3,
                    i <= n,
                    out@ =~= rgb_to_rgba(frame.data@).take((i * 4) as int),
                decreases n - i,
            {
                assert(3 * i + 2 < len);
                out.push(frame.data[3 * i]);
                out.push(frame.data[3 * i + 1]);
                out.push(frame.data[3 * i + 2]);
                out.push(255);
                i = i + 1;
            }
            Ok(out)
        },
        PixelFormat::Rgba8 => {
            let mut out: Vec<u8> = Vec::new();
            crate::bytes::append(&mut out, frame.data.as_slice());
            Ok(out)
        },
        other => {
            let mut m = String::from_str("encode_gif: frame must be Rgb8/Rgba8, got ");
            match other {
                PixelFormat::Gray8 => m.append("Gray8"),
                PixelFormat::GrayA8 => m.append("GrayA8"),
                PixelFormat::Yuv420p => m.append("Yuv420p"),
                PixelFormat::Yuv420p10 => m.append("Yuv420p10"),
                PixelFormat::Yuv420p12 => m.append("Yuv420p12"),
                PixelFormat::Yuv422p => m.append("Yuv422p"),
                _ => m.append("Yuv444p"),
            }
            Err(Error::Filter(m))
        },
    }
}

} // verus!
