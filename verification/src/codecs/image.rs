//! PNG and JPEG still images on top of the `image` crate.

use vstd::prelude::*;
use vstd::string::StringExecFns;

use image::ImageDecoder;

use crate::error::Error;
use crate::frame::{Frame, PixelFormat};

verus! {

/// The colour layouts the image codecs speak of.
#[derive(Debug, Clone, Copy, PartialEq, Eq, Structural)]
pub enum ImageColor {
    Rgb8,
    Rgba8,
    L8,
    La8,
    /// Any other layout (16-bit or float channels).
    Other,
}

/// Bytes per pixel of an 8-bit layout.
pub open spec fn color_bpp(c: ImageColor) -> nat {
    match c {
        ImageColor::Rgb8 => 3,
        ImageColor::Rgba8 => 4,
        ImageColor::L8 => 1,
        ImageColor::La8 => 2,
        ImageColor::Other => 0,
    }
}

// ---------------------------------------------------------------------------
// Calls into the image crate.

/// What `image::codecs::png::PngDecoder` makes of a PNG file: its width,
/// height, colour layout and pixel bytes, or the text of its error. The
/// pixel bytes of an 8-bit layout are the same on every machine; those of a
/// 16-bit layout are in the machine's byte order, so for those the name
/// stands for nothing (see [`decode_png_bytes`]).
pub uninterp spec fn png_decoded(data: Seq<u8>) -> Result<(u32, u32, ImageColor, Seq<u8>), Seq<char>>;

/// Calls `image::codecs::png::PngDecoder::new` on the bytes, then, on the
/// decoder it gives, `dimensions`, `color_type` (told apart into the layouts
/// of [`ImageColor`]) and `read_image` into a buffer of `total_bytes`; an
/// error is rendered as its `Display` text. The result is named by
/// [`png_decoded`]: the decoder reads nothing but the bytes. Pixel bytes
/// are tied to the name only for the 8-bit layouts; `read_image` hands
/// wider samples out in the machine's byte order, and of those nothing is
/// stated.
#[verifier::external_body]
fn decode_png_bytes(data: &[u8]) -> (r: Result<(u32, u32, ImageColor, Vec<u8>), String>)
    ensures
        match (r, png_decoded(data@)) {
            (Ok(got), Ok(want)) => got.0 == want.0 && got.1 == want.1 && got.2 == want.2 && (got.2
                != ImageColor::Other ==> got.3@ == want.3),
            (Err(got), Err(want)) => got@ == want,
            _ => false,
        },
{
    let dec = image::codecs::png::PngDecoder::new(std::io::Cursor::new(data)).map_err(|e| e.to_string())?;
    let (w, h) = dec.dimensions();
    let color = image_color(dec.color_type());
    let mut buf = vec![0u8; dec.total_bytes() as usize];
    dec.read_image(&mut buf).map_err(|e| e.to_string())?;
    Ok((w, h, color, buf))
}

/// What `image::codecs::jpeg::JpegDecoder` makes of a JPEG file: its width,
/// height, colour layout and the number of pixel bytes, or the text of its
/// error. The pixel bytes themselves are left out: the decoder picks vector
/// code paths at run time, and nothing shows that all of them give the same
/// bytes.
pub uninterp spec fn jpeg_decoded(data: Seq<u8>) -> Result<(u32, u32, ImageColor, nat), Seq<char>>;

/// Calls `image::codecs::jpeg::JpegDecoder::new` on the bytes, then
/// `dimensions`, `color_type` and `read_image` as [`decode_png_bytes`] does.
/// The header's values, the pixel byte count and any error are named by
/// [`jpeg_decoded`]; nothing is stated of the pixel bytes.
#[verifier::external_body]
fn decode_jpeg_bytes(data: &[u8]) -> (r: Result<(u32, u32, ImageColor, Vec<u8>), String>)
    ensures
        match (r, jpeg_decoded(data@)) {
            (Ok(got), Ok(want)) => got.0 == want.0 && got.1 == want.1 && got.2 == want.2 && got.3@.len() == want.3,
            (Err(got), Err(want)) => got@ == want,
            _ => false,
        },
{
    let dec = image::codecs::jpeg::JpegDecoder::new(std::io::Cursor::new(data)).map_err(|e| e.to_string())?;
    let (w, h) = dec.dimensions();
    let color = image_color(dec.color_type());
    let mut buf = vec![0u8; dec.total_bytes() as usize];
    dec.read_image(&mut buf).map_err(|e| e.to_string())?;
    Ok((w, h, color, buf))
}

/// Tells the `image::ColorType` variants the codecs speak of apart.
#[verifier::external_body]
fn image_color(c: image::ColorType) -> (r: ImageColor) {
    match c {
        image::ColorType::Rgb8 => ImageColor::Rgb8,
        image::ColorType::Rgba8 => ImageColor::Rgba8,
        image::ColorType::L8 => ImageColor::L8,
        image::ColorType::La8 => ImageColor::La8,
        _ => ImageColor::Other,
    }
}

#[verifier::external_type_specification]
#[verifier::external_body]
pub struct ExImageColorType(image::ColorType);

/// What `image::codecs::png::PngEncoder` writes for 8-bit pixels.
pub uninterp spec fn png_encoding(pixels: Seq<u8>, width: u32, height: u32, bpp: nat) -> Result<Seq<u8>, Seq<char>>;

/// Calls `image::ImageEncoder::write_image` on a `PngEncoder` writing into a
/// `Vec`; its source asserts that the buffer holds exactly
/// `width × height × bpp` bytes. The result is named by [`png_encoding`].
#[verifier::external_body]
fn write_png(pixels: &[u8], width: u32, height: u32, color: ImageColor) -> (r: Result<Vec<u8>, String>)
    requires
        color != ImageColor::Other,
        pixels@.len() == width * height * color_bpp(color),
    ensures
        match (r, png_encoding(pixels@, width, height, color_bpp(color))) {
            (Ok(got), Ok(want)) => got@ == want,
            (Err(got), Err(want)) => got@ == want,
            _ => false,
        },
{
    let c = match color {
        ImageColor::Rgb8 => image::ExtendedColorType::Rgb8,
        ImageColor::Rgba8 => image::ExtendedColorType::Rgba8,
        ImageColor::L8 => image::ExtendedColorType::L8,
        _ => image::ExtendedColorType::La8,
    };
    let mut out: Vec<u8> = Vec::new();
    let enc = image::codecs::png::PngEncoder::new(&mut out);
    image::ImageEncoder::write_image(enc, pixels, width, height, c).map(|_| out).map_err(|e| e.to_string())
}

/// What `image::codecs::jpeg::JpegEncoder` writes for 8-bit pixels at a
/// quality.
pub uninterp spec fn jpeg_encoding(pixels: Seq<u8>, width: u32, height: u32, bpp: nat, quality: u8) -> Result<Seq<u8>, Seq<char>>;

/// Calls `image::ImageEncoder::write_image` on a `JpegEncoder` (made with
/// `new_with_quality`) writing into a `Vec`; its source asserts that the
/// buffer holds exactly `width × height × bpp` bytes. The result is named by
/// [`jpeg_encoding`].
#[verifier::external_body]
fn write_jpeg(pixels: &[u8], width: u32, height: u32, gray: bool, quality: u8) -> (r: Result<Vec<u8>, String>)
    requires
        pixels@.len() == width * height * (if gray { 1nat } else { 3nat }),
    ensures
        match (r, jpeg_encoding(pixels@, width, height, if gray { 1nat } else { 3nat }, quality)) {
            (Ok(got), Ok(want)) => got@ == want,
            (Err(got), Err(want)) => got@ == want,
            _ => false,
        },
{
    let c = if gray { image::ExtendedColorType::L8 } else { image::ExtendedColorType::Rgb8 };
    let mut out: Vec<u8> = Vec::new();
    let enc = image::codecs::jpeg::JpegEncoder::new_with_quality(&mut out, quality);
    image::ImageEncoder::write_image(enc, pixels, width, height, c).map(|_| out).map_err(|e| e.to_string())
}

// ---------------------------------------------------------------------------
// Colour layouts.

/// The frame layout a PNG decodes to (and its bytes per pixel); layouts
/// other than 8-bit gray, gray + alpha, RGB and RGBA are taken as RGB.
pub fn color_to_pixel_format(color: ImageColor) -> (r: (PixelFormat, usize))
    ensures
        r == match color {
            ImageColor::Rgba8 => (PixelFormat::Rgba8, 4usize),
            ImageColor::L8 => (PixelFormat::Gray8, 1usize),
            ImageColor::La8 => (PixelFormat::GrayA8, 2usize),
            _ => (PixelFormat::Rgb8, 3usize),
        },
{
    match color {
        ImageColor::Rgb8 => (PixelFormat::Rgb8, 3),
        ImageColor::Rgba8 => (PixelFormat::Rgba8, 4),
        ImageColor::L8 => (PixelFormat::Gray8, 1),
        ImageColor::La8 => (PixelFormat::GrayA8, 2),
        ImageColor::Other => (PixelFormat::Rgb8, 3),
    }
}

/// The PNG layout a frame layout is written as; planar YUV has none.
pub fn pixel_format_to_color(fmt: PixelFormat) -> (r: Result<ImageColor, Error>)
    ensures
        match fmt {
            PixelFormat::Rgb8 => r == Ok::<ImageColor, Error>(ImageColor::Rgb8),
            PixelFormat::Rgba8 => r == Ok::<ImageColor, Error>(ImageColor::Rgba8),
            PixelFormat::Gray8 => r == Ok::<ImageColor, Error>(ImageColor::L8),
            PixelFormat::GrayA8 => r == Ok::<ImageColor, Error>(ImageColor::La8),
            _ => r matches Err(Error::UnsupportedPixelFormat),
        },
{
    match fmt {
        PixelFormat::Rgb8 => Ok(ImageColor::Rgb8),
        PixelFormat::Rgba8 => Ok(ImageColor::Rgba8),
        PixelFormat::Gray8 => Ok(ImageColor::L8),
        PixelFormat::GrayA8 => Ok(ImageColor::La8),
        _ => Err(Error::UnsupportedPixelFormat),
    }
}

/// The frame layout a JPEG decodes to: gray or RGB.
pub fn jpeg_color_to_pixel_format(color: ImageColor) -> (r: (PixelFormat, usize))
    ensures
        r == (if color == ImageColor::L8 {
            (PixelFormat::Gray8, 1usize)
        } else {
            (PixelFormat::Rgb8, 3usize)
        }),
{
    match color {
        ImageColor::L8 => (PixelFormat::Gray8, 1),
        _ => (PixelFormat::Rgb8, 3),
    }
}

/// Bytes of a `bpp`-byte-per-pixel picture, when they fit in memory.
fn picture_len(bpp: usize, width: u32, height: u32) -> (r: Option<usize>)
    requires
        bpp <= 4,
    ensures
        match r {
            Some(n) => n == bpp * width * height,
            None => bpp * width * height > usize::MAX,
        },
{
    proof {
        assert(bpp * width <= 4 * 0xffff_ffffnat) by (nonlinear_arith)
            requires
                bpp <= 4,
                width <= 0xffff_ffff,
        ;
        assert((bpp * width) * height <= (4 * 0xffff_ffffnat) * 0xffff_ffffnat) by (nonlinear_arith)
            requires
                bpp * width <= 4 * 0xffff_ffffnat,
                height <= 0xffff_ffff,
        ;
    }
    let n = (bpp as u128) * (width as u128) * (height as u128);
    if n > usize::MAX as u128 {
        None
    } else {
        Some(n as usize)
    }
}

/// The decode of a picture from its header values and pixels: the frame
/// when the pixels fill `width × height` at the layout's bytes per pixel.
pub open spec fn picture_frame(f: Frame, width: u32, height: u32, format: PixelFormat, bpp: nat, pixels: Seq<u8>) -> bool {
    &&& pixels.len() == bpp * width * height
    &&& f.width == width
    &&& f.height == height
    &&& f.format == format
    &&& f.data@ == pixels
}

// ---------------------------------------------------------------------------
// Codecs.

/// PNG decoder.
#[derive(Debug, Default, Clone, Copy)]
pub struct PngDecoder;

/// PNG encoder.
#[derive(Debug, Default, Clone, Copy)]
pub struct PngEncoder;

/// JPEG decoder.
#[derive(Debug, Default, Clone, Copy)]
pub struct JpegDecoder;

/// JPEG encoder; `quality` is 1–100.
#[derive(Debug, Clone, Copy)]
pub struct JpegEncoder {
    pub quality: u8,
}

impl Default for JpegEncoder {
    fn default() -> (r: Self)
        ensures
            r.quality == 85,
    {
        JpegEncoder { quality: 85 }
    }
}

/// The message for pixels that do not fill the picture.
pub open spec fn short_pixels_message() -> Seq<char> {
    "decoded pixels do not match the picture size"@
}

/// The frame a PNG decoder's output makes: the pixels in the layout
/// [`color_to_pixel_format`] gives, if they fill the picture; otherwise the
/// short-pixels error; a decoder error as an image error.
pub open spec fn png_result(out: Result<(u32, u32, ImageColor, Seq<u8>), Seq<char>>, r: Result<Frame, Error>) -> bool {
    match out {
        Err(m) => r matches Err(e) && e.is_image(m),
        Ok(d) => if d.2 == ImageColor::Other {
            r matches Err(e) && e.is_image(wide_png_message())
        } else if d.3.len() == color_bpp_or_rgb(d.2) * d.0 * d.1 {
            r matches Ok(f) && picture_frame(f, d.0, d.1, color_to_format(d.2), color_bpp_or_rgb(d.2), d.3)
        } else {
            r matches Err(e) && e.is_image(short_pixels_message())
        },
    }
}

impl PngDecoder {
    /// Decode a PNG file's bytes into a frame in the layout its header
    /// names (see [`color_to_pixel_format`]).
    pub fn decode(&self, data: &[u8]) -> (r: Result<Frame, Error>)
        ensures
            png_result(png_decoded(data@), r),
    {
        let (w, h, color, pixels) = match decode_png_bytes(data) {
            Ok(d) => d,
            Err(m) => {
                return Err(Error::Image(m));
            },
        };
        if color == ImageColor::Other {
            return Err(Error::Image(String::from_str("PNG layouts wider than 8 bits per channel are not supported")));
        }
        let (format, bpp) = color_to_pixel_format(color);
        let n_px = pixels.len();
        match picture_len(bpp, w, h) {
            Some(n) if n == n_px => {
                let f = Frame::new(w, h, format, pixels);
                Ok(f)
            },
            _ => Err(Error::Image(String::from_str("decoded pixels do not match the picture size"))),
        }
    }
}

/// The error for a PNG whose samples are wider than 8 bits.
pub open spec fn wide_png_message() -> Seq<char> {
    "PNG layouts wider than 8 bits per channel are not supported"@
}

/// The frame layout [`color_to_pixel_format`] gives.
pub open spec fn color_to_format(c: ImageColor) -> PixelFormat {
    match c {
        ImageColor::Rgba8 => PixelFormat::Rgba8,
        ImageColor::L8 => PixelFormat::Gray8,
        ImageColor::La8 => PixelFormat::GrayA8,
        _ => PixelFormat::Rgb8,
    }
}

/// The bytes per pixel [`color_to_pixel_format`] gives.
pub open spec fn color_bpp_or_rgb(c: ImageColor) -> nat {
    match c {
        ImageColor::Rgba8 => 4,
        ImageColor::L8 => 1,
        ImageColor::La8 => 2,
        _ => 3,
    }
}

/// The frame layout a JPEG decodes to: gray, or else RGB.
pub open spec fn jpeg_format(c: ImageColor) -> PixelFormat {
    if c == ImageColor::L8 {
        PixelFormat::Gray8
    } else {
        PixelFormat::Rgb8
    }
}

/// The bytes per pixel of [`jpeg_format`].
pub open spec fn jpeg_bpp(c: ImageColor) -> nat {
    if c == ImageColor::L8 {
        1
    } else {
        3
    }
}

/// The frame a JPEG decoder's output makes, as [`png_result`] but with the
/// layouts of [`jpeg_format`], and stated only up to the pixel bytes.
pub open spec fn jpeg_result(out: Result<(u32, u32, ImageColor, nat), Seq<char>>, r: Result<Frame, Error>) -> bool {
    match out {
        Err(m) => r matches Err(e) && e.is_image(m),
        Ok(d) => if d.3 == jpeg_bpp(d.2) * d.0 * d.1 {
            r matches Ok(f) && f.width == d.0 && f.height == d.1 && f.format == jpeg_format(d.2) && f.data@.len()
                == d.3
        } else {
            r matches Err(e) && e.is_image(short_pixels_message())
        },
    }
}

impl JpegDecoder {
    /// Decode a JPEG file's bytes into a gray or RGB frame.
    pub fn decode(&self, data: &[u8]) -> (r: Result<Frame, Error>)
        ensures
            jpeg_result(jpeg_decoded(data@), r),
    {
        let (w, h, color, pixels) = match decode_jpeg_bytes(data) {
            Ok(d) => d,
            Err(m) => {
                return Err(Error::Image(m));
            },
        };
        let (format, bpp) = jpeg_color_to_pixel_format(color);
        let n_px = pixels.len();
        match picture_len(bpp, w, h) {
            Some(n) if n == n_px => {
                let f = Frame::new(w, h, format, pixels);
                Ok(f)
            },
            _ => Err(Error::Image(String::from_str("decoded pixels do not match the picture size"))),
        }
    }
}

impl PngEncoder {
    /// Encode a frame as a PNG file; planar YUV has no PNG layout.
    pub fn encode(&self, frame: &Frame) -> (r: Result<Vec<u8>, Error>)
        requires
            frame.format.is_packed() ==> frame.data@.len() == frame.format.spec_data_len(
                frame.width,
                frame.height,
            ),
        ensures
            !frame.format.is_packed() ==> r matches Err(Error::UnsupportedPixelFormat),
            frame.format.is_packed() ==> match png_encoding(
                frame.data@,
                frame.width,
                frame.height,
                frame.format.spec_data_len(1, 1) as nat,
            ) {
                Ok(b) => r matches Ok(v) && v@ == b,
                Err(m) => r matches Err(e) && e.is_image(m),
            },
    {
        let color = match pixel_format_to_color(frame.format) {
            Ok(c) => c,
            Err(e) => {
                return Err(e);
            },
        };
        proof {
            assert(frame.data@.len() == frame.width * frame.height * color_bpp(color)) by (nonlinear_arith)
                requires
                    frame.data@.len() == frame.format.spec_data_len(frame.width, frame.height),
                    color_bpp(color) == frame.format.spec_data_len(1, 1),
                    frame.format.is_packed(),
            ;
        }
        match write_png(frame.data.as_slice(), frame.width, frame.height, color) {
            Ok(b) => Ok(b),
            Err(m) => Err(Error::Image(m)),
        }
    }
}

impl JpegEncoder {
    /// Encode an RGB or gray frame as a JPEG file at this quality.
    pub fn encode(&self, frame: &Frame) -> (r: Result<Vec<u8>, Error>)
        requires
            frame.format == PixelFormat::Rgb8 || frame.format == PixelFormat::Gray8 ==> frame.data@.len()
                == frame.format.spec_data_len(frame.width, frame.height),
        ensures
            !(frame.format == PixelFormat::Rgb8 || frame.format == PixelFormat::Gray8) ==> r matches Err(
                Error::UnsupportedPixelFormat,
            ),
            frame.format == PixelFormat::Rgb8 || frame.format == PixelFormat::Gray8 ==> match jpeg_encoding(
                frame.data@,
                frame.width,
                frame.height,
                frame.format.spec_data_len(1, 1) as nat,
                self.quality,
            ) {
                Ok(b) => r matches Ok(v) && v@ == b,
                Err(m) => r matches Err(e) && e.is_image(m),
            },
    {
        let gray = match frame.format {
            PixelFormat::Rgb8 => false,
            PixelFormat::Gray8 => true,
            _ => {
                return Err(Error::UnsupportedPixelFormat);
            },
        };
        proof {
            assert(frame.data@.len() == frame.width * frame.height * (if gray { 1nat } else { 3nat }))
                by (nonlinear_arith)
                requires
                    frame.data@.len() == frame.format.spec_data_len(frame.width, frame.height),
                    gray ==> frame.format == PixelFormat::Gray8,
                    !gray ==> frame.format == PixelFormat::Rgb8,
            ;
        }
        match write_jpeg(frame.data.as_slice(), frame.width, frame.height, gray, self.quality) {
            Ok(b) => Ok(b),
            Err(m) => Err(Error::Image(m)),
        }
    }
}

/// Whether bytes start with the PNG signature's first four bytes.
pub open spec fn has_png_magic(d: Seq<u8>) -> bool {
    d.len() >= 4 && d[0] == 0x89 && d[1] == 0x50 && d[2] == 0x4E && d[3] == 0x47
}

/// Whether bytes start with a JPEG start-of-image marker.
pub open spec fn has_jpeg_magic(d: Seq<u8>) -> bool {
    d.len() >= 2 && d[0] == 0xFF && d[1] == 0xD8
}

/// Decode an image asset's bytes, PNG or JPEG as their signature says.
pub fn decode_image(data: &[u8]) -> (r: Result<Frame, Error>)
    ensures
        has_png_magic(data@) ==> png_result(png_decoded(data@), r),
        !has_png_magic(data@) && has_jpeg_magic(data@) ==> jpeg_result(jpeg_decoded(data@), r),
        !has_png_magic(data@) && !has_jpeg_magic(data@) ==> (r matches Err(e) && e.is_unsupported(
            "image asset must be PNG or JPEG"@,
        )),
{
    let n = data.len();
    if n >= 4 && data[0] == 0x89 && data[1] == 0x50 && data[2] == 0x4E && data[3] == 0x47 {
        PngDecoder.decode(data)
    } else if n >= 2 && data[0] == 0xFF && data[1] == 0xD8 {
        JpegDecoder.decode(data)
    } else {
        Err(Error::UnsupportedFormat(String::from_str("image asset must be PNG or JPEG")))
    }
}

} // verus!
