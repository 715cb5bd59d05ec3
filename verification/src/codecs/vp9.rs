//! Turning a decoded VP9 picture into a frame.
//!
//! libdav1d hands out a picture as up to three planes, each with its own
//! stride (the byte distance between rows, which may include padding). The
//! functions here pick the frame layout for the picture's bit depth and
//! chroma layout, and pack the visible part of each row, plane after plane.

use vstd::prelude::*;
use vstd::string::StringExecFns;

use crate::error::Error;
use crate::frame::{Frame, PixelFormat};
use crate::text::{decimal_spec, push_decimal};
use crate::video::{Packet, VideoFrame};

verus! {

/// Chroma layout of a decoded picture.
#[derive(Debug, Clone, Copy, PartialEq, Eq, Structural)]
pub enum ChromaLayout {
    /// Luma only.
    I400,
    /// Chroma halved in both directions.
    I420,
    /// Chroma halved horizontally.
    I422,
    /// Full-resolution chroma.
    I444,
}

/// The name a chroma layout is reported by.
pub open spec fn layout_name(l: ChromaLayout) -> Seq<char> {
    match l {
        ChromaLayout::I400 => "I400"@,
        ChromaLayout::I420 => "I420"@,
        ChromaLayout::I422 => "I422"@,
        ChromaLayout::I444 => "I444"@,
    }
}

/// The frame layout for a bit depth and chroma layout: 8, 10 or 12-bit
/// 4:2:0, and 8-bit 4:2:2 and 4:4:4.
pub open spec fn vp9_format(depth: nat, layout: ChromaLayout) -> Option<PixelFormat> {
    if depth == 8 && layout == ChromaLayout::I420 {
        Some(PixelFormat::Yuv420p)
    } else if depth == 10 && layout == ChromaLayout::I420 {
        Some(PixelFormat::Yuv420p10)
    } else if depth == 12 && layout == ChromaLayout::I420 {
        Some(PixelFormat::Yuv420p12)
    } else if depth == 8 && layout == ChromaLayout::I422 {
        Some(PixelFormat::Yuv422p)
    } else if depth == 8 && layout == ChromaLayout::I444 {
        Some(PixelFormat::Yuv444p)
    } else {
        None
    }
}

/// The text of the error for a layout that has no frame layout.
pub open spec fn vp9_format_message(depth: nat, layout: ChromaLayout) -> Seq<char> {
    "VP9: unsupported "@ + decimal_spec(depth) + "-bit "@ + layout_name(layout)
        + " — only 8/10/12-bit I420, 8-bit I422/I444 are supported"@
}

/// The frame layout of a picture of `depth` bits and chroma layout `layout`.
pub fn pixel_format_for(depth: usize, layout: ChromaLayout) -> (r: Result<PixelFormat, Error>)
    ensures
        match vp9_format(depth as nat, layout) {
            Some(f) => r == Ok::<PixelFormat, Error>(f),
            None => r matches Err(e) && e.is_video(vp9_format_message(depth as nat, layout)),
        },
{
    match layout {
        ChromaLayout::I420 => {
            if depth == 8 {
                return Ok(PixelFormat::Yuv420p);
            } else if depth == 10 {
                return Ok(PixelFormat::Yuv420p10);
            } else if depth == 12 {
                return Ok(PixelFormat::Yuv420p12);
            }
        },
        ChromaLayout::I422 => {
            if depth == 8 {
                return Ok(PixelFormat::Yuv422p);
            }
        },
        ChromaLayout::I444 => {
            if depth == 8 {
                return Ok(PixelFormat::Yuv444p);
            }
        },
        ChromaLayout::I400 => {},
    }
    let mut m = String::from_str("VP9: unsupported ");
    push_decimal(&mut m, depth);
    m.append("-bit ");
    match layout {
        ChromaLayout::I400 => m.append("I400"),
        ChromaLayout::I420 => m.append("I420"),
        ChromaLayout::I422 => m.append("I422"),
        ChromaLayout::I444 => m.append("I444"),
    }
    m.append(" — only 8/10/12-bit I420, 8-bit I422/I444 are supported");
    assert(m@ =~= vp9_format_message(depth as nat, layout));
    Err(Error::Video(m))
}

/// Bytes per sample: two above 8 bits, else one.
pub open spec fn sample_bytes(depth: nat) -> nat {
    if depth > 8 {
        2
    } else {
        1
    }
}

/// Width and height of each chroma plane of a `w × h` picture.
pub open spec fn chroma_dims(w: nat, h: nat, layout: ChromaLayout) -> (nat, nat) {
    match layout {
        ChromaLayout::I420 => (((w + 1) / 2) as nat, ((h + 1) / 2) as nat),
        ChromaLayout::I422 => (((w + 1) / 2) as nat, h),
        ChromaLayout::I444 => (w, h),
        ChromaLayout::I400 => (0, 0),
    }
}

/// The first `rows` rows of a plane, each `row_bytes` long and starting a
/// multiple of `stride` into `bytes`, one after another.
pub open spec fn plane_rows(bytes: Seq<u8>, stride: nat, row_bytes: nat, rows: nat) -> Seq<u8>
    decreases rows,
{
    if rows == 0 {
        Seq::empty()
    } else {
        let r = (rows - 1) as nat;
        plane_rows(bytes, stride, row_bytes, r) + bytes.subrange((r * stride) as int, (r * stride + row_bytes) as int)
    }
}

/// Whether `rows` rows of `row_bytes` bytes, `stride` apart, lie inside a
/// plane of `len` bytes.
pub open spec fn rows_fit(len: nat, stride: nat, row_bytes: nat, rows: nat) -> bool {
    &&& row_bytes <= usize::MAX
    &&& rows > 0 ==> (rows - 1) * stride + row_bytes <= len
}

/// Whether the three planes hold the rows a `w × h` picture of this depth
/// and chroma layout is read from.
pub open spec fn planes_fit(
    y: Seq<u8>,
    u: Seq<u8>,
    v: Seq<u8>,
    strides: (nat, nat, nat),
    w: nat,
    h: nat,
    layout: ChromaLayout,
    depth: nat,
) -> bool {
    let bps = sample_bytes(depth);
    let (cw, ch) = chroma_dims(w, h, layout);
    &&& rows_fit(y.len(), strides.0, w * bps, h)
    &&& layout != ChromaLayout::I400 ==> rows_fit(u.len(), strides.1, cw * bps, ch) && rows_fit(
        v.len(),
        strides.2,
        cw * bps,
        ch,
    )
}

/// The packed sample bytes of a picture: the visible part of every row of
/// the Y plane, then of the U and V planes unless the picture is luma only.
pub open spec fn packed_planes(
    y: Seq<u8>,
    u: Seq<u8>,
    v: Seq<u8>,
    strides: (nat, nat, nat),
    w: nat,
    h: nat,
    layout: ChromaLayout,
    depth: nat,
) -> Seq<u8> {
    let bps = sample_bytes(depth);
    let (cw, ch) = chroma_dims(w, h, layout);
    let luma = plane_rows(y, strides.0, w * bps, h);
    if layout == ChromaLayout::I400 {
        luma
    } else {
        luma + plane_rows(u, strides.1, cw * bps, ch) + plane_rows(v, strides.2, cw * bps, ch)
    }
}

/// `rows` rows of `row_bytes` bytes are `rows * row_bytes` bytes long.
pub proof fn lemma_plane_rows_len(bytes: Seq<u8>, stride: nat, row_bytes: nat, rows: nat)
    requires
        rows > 0 ==> (rows - 1) * stride + row_bytes <= bytes.len(),
    ensures
        plane_rows(bytes, stride, row_bytes, rows).len() == rows * row_bytes,
    decreases rows,
{
    if rows > 0 {
        let r = (rows - 1) as nat;
        if r > 0 {
            assert((r - 1) * stride <= r * stride) by (nonlinear_arith)
                requires
                    r > 0,
            ;
        }
        lemma_plane_rows_len(bytes, stride, row_bytes, r);
        assert(rows * row_bytes == r * row_bytes + row_bytes) by (nonlinear_arith)
            requires
                r == rows - 1,
        ;
    }
}

/// A packed picture is as long as its frame layout says a `w × h` picture
/// is: decoding never yields a frame whose data and size disagree.
pub proof fn law_packed_size(
    y: Seq<u8>,
    u: Seq<u8>,
    v: Seq<u8>,
    strides: (nat, nat, nat),
    w: u32,
    h: u32,
    layout: ChromaLayout,
    depth: nat,
)
    requires
        vp9_format(depth, layout) is Some,
        planes_fit(y, u, v, strides, w as nat, h as nat, layout, depth),
    ensures
        packed_planes(y, u, v, strides, w as nat, h as nat, layout, depth).len() == vp9_format(
            depth,
            layout,
        )->0.spec_data_len(w, h),
{
    let bps = sample_bytes(depth);
    let (cw, ch) = chroma_dims(w as nat, h as nat, layout);
    lemma_plane_rows_len(y, strides.0, (w as nat) * bps, h as nat);
    lemma_plane_rows_len(u, strides.1, cw * bps, ch);
    lemma_plane_rows_len(v, strides.2, cw * bps, ch);
    assert(h * (w * bps) == (w * h) * bps) by (nonlinear_arith);
    assert(ch * (cw * bps) == (cw * ch) * bps) by (nonlinear_arith);
}

/// Append the first `rows` rows of a plane to `out`.
fn append_rows(out: &mut Vec<u8>, bytes: &[u8], stride: usize, row_bytes: usize, rows: usize)
    requires
        rows_fit(bytes@.len(), stride as nat, row_bytes as nat, rows as nat),
    ensures
        final(out)@ == old(out)@ + plane_rows(bytes@, stride as nat, row_bytes as nat, rows as nat),
{
    let ghost start = out@;
    let len = crate::bytes::byte_len(bytes);
    let mut row: usize = 0;
    while row < rows
        invariant
            row <= rows,
            len == bytes@.len(),
            rows_fit(bytes@.len(), stride as nat, row_bytes as nat, rows as nat),
            out@ == start + plane_rows(bytes@, stride as nat, row_bytes as nat, row as nat),
        decreases rows - row,
    {
        proof {
            let last = (rows - 1) as nat;
            assert(row * stride <= last * stride) by (nonlinear_arith)
                requires
                    row <= last,
            ;
            assert(row * stride + row_bytes <= len);
        }
        let first = row * stride;
        let slice = crate::bytes::subslice(bytes, first, first + row_bytes);
        crate::bytes::append(out, slice);
        row = row + 1;
        assert(out@ =~= start + plane_rows(bytes@, stride as nat, row_bytes as nat, row as nat));
    }
}

/// Copy the visible rows of a picture's planes into one buffer, row by row,
/// leaving out the padding at the end of each row. Samples above 8 bits take
/// two bytes each.
pub fn extract_planes(
    y: &[u8],
    u: &[u8],
    v: &[u8],
    strides: (usize, usize, usize),
    w: u32,
    h: u32,
    layout: ChromaLayout,
    depth: usize,
) -> (r: Vec<u8>)
    requires
        planes_fit(
            y@,
            u@,
            v@,
            (strides.0 as nat, strides.1 as nat, strides.2 as nat),
            w as nat,
            h as nat,
            layout,
            depth as nat,
        ),
    ensures
        r@ == packed_planes(
            y@,
            u@,
            v@,
            (strides.0 as nat, strides.1 as nat, strides.2 as nat),
            w as nat,
            h as nat,
            layout,
            depth as nat,
        ),
{
    let wu = w as usize;
    let hu = h as usize;
    let bps: usize = if depth > 8 {
        2
    } else {
        1
    };
    let half_w = wu / 2 + wu % 2;
    let half_h = hu / 2 + hu % 2;
    let (uv_w, uv_h) = match layout {
        ChromaLayout::I420 => (half_w, half_h),
        ChromaLayout::I422 => (half_w, hu),
        ChromaLayout::I444 => (wu, hu),
        ChromaLayout::I400 => (0, 0),
    };
    assert(uv_w == chroma_dims(w as nat, h as nat, layout).0);
    assert(uv_h == chroma_dims(w as nat, h as nat, layout).1);
    let mut data: Vec<u8> = Vec::new();
    append_rows(&mut data, y, strides.0, wu * bps, hu);
    if layout != ChromaLayout::I400 {
        append_rows(&mut data, u, strides.1, uv_w * bps, uv_h);
        append_rows(&mut data, v, strides.2, uv_w * bps, uv_h);
    }
    data
}

/// A decoded VP9 picture as a frame with the packet's timing: the layout
/// named by [`pixel_format_for`], the samples packed by [`extract_planes`].
pub fn frame_from_picture(
    y: &[u8],
    u: &[u8],
    v: &[u8],
    strides: (usize, usize, usize),
    w: u32,
    h: u32,
    layout: ChromaLayout,
    depth: usize,
    packet: &Packet,
) -> (r: Result<VideoFrame, Error>)
    requires
        vp9_format(depth as nat, layout) is Some ==> planes_fit(
            y@,
            u@,
            v@,
            (strides.0 as nat, strides.1 as nat, strides.2 as nat),
            w as nat,
            h as nat,
            layout,
            depth as nat,
        ),
    ensures
        match vp9_format(depth as nat, layout) {
            Some(f) => r matches Ok(vf) && vf.frame.width == w && vf.frame.height == h
                && vf.frame.format == f && vf.frame.data@ == packed_planes(
                y@,
                u@,
                v@,
                (strides.0 as nat, strides.1 as nat, strides.2 as nat),
                w as nat,
                h as nat,
                layout,
                depth as nat,
            ) && vf.pts == packet.pts && vf.duration == packet.duration && vf.is_keyframe
                == packet.is_keyframe,
            None => r matches Err(e) && e.is_video(vp9_format_message(depth as nat, layout)),
        },
{
    let format = match pixel_format_for(depth, layout) {
        Ok(f) => f,
        Err(e) => {
            return Err(e);
        },
    };
    let data = extract_planes(y, u, v, strides, w, h, layout, depth);
    let frame = Frame::new(w, h, format, data);
    Ok(VideoFrame::new(frame, packet.pts, packet.duration, packet.is_keyframe))
}


/// The decoder's pictures map onto frame layouts exactly for 8-, 10- and
/// 12-bit 4:2:0 and 8-bit 4:2:2 and 4:4:4, each onto the layout of that
/// depth and subsampling; and the chosen layout's size is that of a luma
/// plane and two chroma planes of [`chroma_dims`], at [`sample_bytes`] a
/// sample.
pub proof fn law_vp9_formats(depth: nat, layout: ChromaLayout, width: u32, height: u32)
    ensures
        vp9_format(depth, layout) is Some <==> ((layout == ChromaLayout::I420 && (depth == 8 || depth == 10 || depth
            == 12)) || (depth == 8 && (layout == ChromaLayout::I422 || layout == ChromaLayout::I444))),
        vp9_format(8, ChromaLayout::I420) == Some(PixelFormat::Yuv420p),
        vp9_format(10, ChromaLayout::I420) == Some(PixelFormat::Yuv420p10),
        vp9_format(12, ChromaLayout::I420) == Some(PixelFormat::Yuv420p12),
        vp9_format(8, ChromaLayout::I422) == Some(PixelFormat::Yuv422p),
        vp9_format(8, ChromaLayout::I444) == Some(PixelFormat::Yuv444p),
        vp9_format(depth, layout) matches Some(f) ==> f.spec_data_len(width, height) == sample_bytes(depth) * (
        width * height + 2 * (chroma_dims(width as nat, height as nat, layout).0 * chroma_dims(
            width as nat,
            height as nat,
            layout,
        ).1)),
{
    let w = width as int;
    let h = height as int;
    let cd = chroma_dims(width as nat, height as nat, layout);
    if let Some(f) = vp9_format(depth, layout) {
        let luma = w * h;
        if layout == ChromaLayout::I420 {
            assert(cd.0 == (w + 1) / 2 && cd.1 == (h + 1) / 2);
        } else if layout == ChromaLayout::I422 {
            assert(cd.0 == (w + 1) / 2 && cd.1 == h);
        } else {
            assert(cd.0 == w && cd.1 == h);
            assert(f.spec_data_len(width, height) == 3 * luma);
        }
        let planes = luma + 2 * (cd.0 * cd.1);
        assert(f.spec_data_len(width, height) == sample_bytes(depth) * planes);
    }
}

} // verus!
