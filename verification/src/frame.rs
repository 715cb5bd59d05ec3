//! Raw video frames: pixel layout plus packed sample bytes.

use vstd::prelude::*;
use vstd::string::StringExecFns;

use crate::error::Error;

verus! {

/// Pixel layout of a [`Frame`]'s data.
#[derive(Debug, Clone, Copy, PartialEq, Eq, Structural)]
pub enum PixelFormat {
    /// Packed 8-bit RGB.
    Rgb8,
    /// Packed 8-bit RGBA.
    Rgba8,
    /// 8-bit luma.
    Gray8,
    /// 8-bit luma + alpha.
    GrayA8,
    /// Planar YUV 4:2:0 (Y plane, then U, then V; chroma rounded up).
    Yuv420p,
    /// Planar YUV 4:2:0 with 10-bit samples, each a little-endian `u16`.
    Yuv420p10,
    /// Planar YUV 4:2:0 with 12-bit samples, each a little-endian `u16`.
    Yuv420p12,
    /// Planar YUV 4:2:2 (chroma halved horizontally, rounded up).
    Yuv422p,
    /// Planar YUV 4:4:4.
    Yuv444p,
}

impl PixelFormat {
    /// Bytes a `width × height` picture of this layout occupies.
    pub open spec fn spec_data_len(self, width: u32, height: u32) -> int {
        let (w, h) = (width as int, height as int);
        match self {
            PixelFormat::Rgb8 => w * h * 3,
            PixelFormat::Rgba8 => w * h * 4,
            PixelFormat::Gray8 => w * h,
            PixelFormat::GrayA8 => w * h * 2,
            PixelFormat::Yuv420p => w * h + 2 * (((w + 1) / 2) * ((h + 1) / 2)),
            PixelFormat::Yuv420p10 | PixelFormat::Yuv420p12 => 2 * (w * h + 2 * (((w + 1) / 2) * ((h
                + 1) / 2))),
            PixelFormat::Yuv422p => w * h + 2 * (((w + 1) / 2) * h),
            PixelFormat::Yuv444p => 3 * (w * h),
        }
    }

    /// Whether the layout is packed, one pixel after another (RGB, RGBA,
    /// gray, gray + alpha), rather than planar YUV.
    pub open spec fn is_packed(self) -> bool {
        match self {
            PixelFormat::Rgb8 | PixelFormat::Rgba8 | PixelFormat::Gray8 | PixelFormat::GrayA8 => true,
            _ => false,
        }
    }
}

/// A raw video frame.
#[derive(Debug, Clone)]
pub struct Frame {
    pub width: u32,
    pub height: u32,
    pub format: PixelFormat,
    pub data: Vec<u8>,
}

impl Frame {
    pub fn new(width: u32, height: u32, format: PixelFormat, data: Vec<u8>) -> (f: Frame)
        ensures
            f.width == width,
            f.height == height,
            f.format == format,
            f.data@ == data@,
    {
        Frame { width, height, format, data }
    }
}

/// The bytes of an opaque `Rgba8` picture of `n` pixels, all of colour `bg`.
pub open spec fn solid_rgba(n: nat, bg: [u8; 3]) -> Seq<u8> {
    Seq::new(n * 4, |i: int| if i % 4 == 3 { 255u8 } else { bg@[i % 4] })
}

/// An opaque `Rgba8` canvas filled with `bg` (RGB).
pub fn solid_canvas(width: u32, height: u32, bg: [u8; 3]) -> (r: Frame)
    requires
        width * height * 4 <= usize::MAX,
    ensures
        r.width == width,
        r.height == height,
        r.format == PixelFormat::Rgba8,
        r.data@ == solid_rgba((width * height) as nat, bg),
{
    let n = (width as usize) * (height as usize);
    let mut data: Vec<u8> = Vec::new();
    let mut i: usize = 0;
    while i < n
        invariant
            n == width * height,
            n * 4 <= usize::MAX,
            i <= n,
            data@ =~= solid_rgba(i as nat, bg),
        decreases n - i,
    {
        data.push(bg[0]);
        data.push(bg[1]);
        data.push(bg[2]);
        data.push(255);
        i = i + 1;
    }
    Frame::new(width, height, PixelFormat::Rgba8, data)
}

/// The message for a frame handed to the 4:2:0-to-RGB conversion in
/// another layout.
pub open spec fn yuv420_expected_message() -> Seq<char> {
    "yuv420p_to_rgb8 expects Yuv420p input"@
}

/// Where the planes of a 4:2:0 frame end, for converting it to RGB: the Y
/// plane at `width × height`, the U plane `⌈width/2⌉ × ⌈height/2⌉` bytes
/// later (the V plane is the rest). A frame in another layout is a filter
/// error.
pub fn yuv420_plane_ends(frame: &Frame) -> (r: Result<(usize, usize), Error>)
    requires
        frame.format == PixelFormat::Yuv420p ==> frame.data@.len() >= PixelFormat::Yuv420p.spec_data_len(
            frame.width,
            frame.height,
        ),
    ensures
        frame.format != PixelFormat::Yuv420p ==> (r matches Err(e) && e.is_filter(yuv420_expected_message())),
        frame.format == PixelFormat::Yuv420p ==> (r matches Ok(ends) && ends.0 == frame.width as int
            * frame.height as int && ends.1 == ends.0 + ((frame.width as int + 1) / 2) * ((frame.height as int
            + 1) / 2) && ends.1 <= frame.data@.len()),
{
    match frame.format {
        PixelFormat::Yuv420p => {},
        _ => {
            return Err(Error::Filter(String::from_str("yuv420p_to_rgb8 expects Yuv420p input")));
        },
    }
    let w = frame.width as u64;
    let h = frame.height as u64;
    let uv_w = (w + 1) / 2;
    let uv_h = (h + 1) / 2;
    proof {
        assert(w * h <= 0xffff_ffff * 0xffff_ffff) by (nonlinear_arith)
            requires
                w <= 0xffff_ffff,
                h <= 0xffff_ffff,
        ;
        assert(uv_w * uv_h <= 0x8000_0000 * 0x8000_0000) by (nonlinear_arith)
            requires
                uv_w <= 0x8000_0000,
                uv_h <= 0x8000_0000,
        ;
    }
    let y_end = w * h;
    let uv = uv_w * uv_h;
    let len = frame.data.len();
    proof {
        assert(PixelFormat::Yuv420p.spec_data_len(frame.width, frame.height) == y_end + 2 * uv);
        assert(y_end + uv <= len);
    }
    let u_end = y_end + uv;
    Ok((y_end as usize, u_end as usize))
}


/// How the layouts' sizes relate: a gray picture takes one byte a pixel;
/// gray + alpha, RGB, RGBA and planar 4:4:4 take 2, 3, 4 and 3 times that;
/// 10- and 12-bit 4:2:0 take twice 8-bit 4:2:0; 4:2:0 is the luma plane and
/// two chroma planes of half the width and height, rounded up (3/2 bytes a
/// pixel when both are even), and 4:2:2 two chroma planes of half the width
/// (2 bytes a pixel when the width is even).
pub proof fn law_frame_sizes(width: u32, height: u32)
    ensures
        ({
            let g = PixelFormat::Gray8.spec_data_len(width, height);
            let w = width as int;
            let h = height as int;
            &&& g == w * h
            &&& PixelFormat::GrayA8.spec_data_len(width, height) == 2 * g
            &&& PixelFormat::Rgb8.spec_data_len(width, height) == 3 * g
            &&& PixelFormat::Rgba8.spec_data_len(width, height) == 4 * g
            &&& PixelFormat::Yuv444p.spec_data_len(width, height) == 3 * g
            &&& PixelFormat::Yuv420p10.spec_data_len(width, height) == 2 * PixelFormat::Yuv420p.spec_data_len(
                width,
                height,
            )
            &&& PixelFormat::Yuv420p12.spec_data_len(width, height) == 2 * PixelFormat::Yuv420p.spec_data_len(
                width,
                height,
            )
            &&& PixelFormat::Yuv420p.spec_data_len(width, height) == g + 2 * ((w + 1) / 2) * ((h + 1) / 2)
            &&& (w % 2 == 0 && h % 2 == 0) ==> 2 * PixelFormat::Yuv420p.spec_data_len(width, height) == 3 * g
            &&& w % 2 == 0 ==> PixelFormat::Yuv422p.spec_data_len(width, height) == 2 * g
        }),
{
    let w = width as int;
    let h = height as int;
    if w % 2 == 0 && h % 2 == 0 {
        let a = w / 2;
        let b = h / 2;
        assert((w + 1) / 2 == a && (h + 1) / 2 == b);
        assert(4 * (a * b) == w * h) by (nonlinear_arith)
            requires
                w == 2 * a,
                h == 2 * b,
        ;
    }
    if w % 2 == 0 {
        let a = w / 2;
        assert((w + 1) / 2 == a);
        assert(2 * (a * h) == w * h) by (nonlinear_arith)
            requires
                w == 2 * a,
        ;
    }
    assert(2 * (((w + 1) / 2) * ((h + 1) / 2)) == 2 * ((w + 1) / 2) * ((h + 1) / 2)) by (nonlinear_arith);
}

} // verus!
