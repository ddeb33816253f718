//! Frames as plain 8-bit images: strided rows repacked into tightly packed
//! grey, RGB or RGBA pixels, with channel swaps, alpha dropped or made
//! opaque, and luma taken from colour; images back into packed frames; and
//! which conversion takes a frame to RGB, RGBA or grey.
use vstd::prelude::*;

use crate::bayer::{lemma_pixel_index, rgb_of};
use crate::format::{ColorSpace, FourCc, MediaFormat, Resolution};
use crate::meta::{FrameMeta, FrameMutability};
use crate::rows::Plane;
use crate::transform::{lemma_pixel_before, pix};
use crate::yuv::{
    biplanar_accepted, decode_i420_into, decode_nv, decode_nv12, map_colorspace, max_int, nv12_failure,
    nv12_source, nv_failure, nv_library_used, nv_pixel, nv_source, planar_failure, planar_library_used,
    planar_pixel, planar_source, yuyv422_to_rgb_lib, yuyv_dims_ok, yuyv_pixel, yuyv_tight_len,
    yuyv_to_rgb_fallback, YuvModeKind,
};
use vstd::slice::slice_subrange;

verus! {

/// How each output pixel is made from one input pixel.
#[derive(Debug, Clone, Copy, PartialEq, Eq, Structural)]
pub enum Repack {
    /// Keep the pixel's `bpp` bytes.
    Copy { bpp: usize },
    /// RGB from the first three bytes of `in_bpp`-byte pixels, taken in
    /// reverse order where `swap`.
    Rgb { in_bpp: usize, swap: bool },
    /// RGBA from BGRA: red and blue swapped, alpha kept.
    BgraToRgba,
    /// RGBA from RGB, fully opaque.
    RgbToRgba,
    /// 8-bit luma `(77 R + 150 G + 29 B) >> 8` of `in_bpp`-byte pixels
    /// whose first three bytes are R, G, B, or B, G, R where `swap`.
    Luma { in_bpp: usize, swap: bool },
}

/// The repack is one this module performs.
pub open spec fn repack_ok(op: Repack) -> bool {
    match op {
        Repack::Copy { bpp } => 1 <= bpp <= 4,
        Repack::Rgb { in_bpp, .. } => 3 <= in_bpp <= 4,
        Repack::Luma { in_bpp, .. } => 3 <= in_bpp <= 4,
        _ => true,
    }
}

/// Bytes per input pixel.
pub open spec fn repack_in(op: Repack) -> int {
    match op {
        Repack::Copy { bpp } => bpp as int,
        Repack::Rgb { in_bpp, .. } => in_bpp as int,
        Repack::BgraToRgba => 4,
        Repack::RgbToRgba => 3,
        Repack::Luma { in_bpp, .. } => in_bpp as int,
    }
}

/// Bytes per output pixel.
pub open spec fn repack_out(op: Repack) -> int {
    match op {
        Repack::Copy { bpp } => bpp as int,
        Repack::Rgb { .. } => 3,
        Repack::BgraToRgba => 4,
        Repack::RgbToRgba => 4,
        Repack::Luma { .. } => 1,
    }
}

/// Integer luma of an RGB triple.
pub open spec fn luma_of(r: int, g: int, b: int) -> int {
    (77 * r + 150 * g + 29 * b) / 256
}

/// Byte `c` of the output pixel made from the input pixel at `base`.
pub open spec fn repack_byte(op: Repack, src: Seq<u8>, base: int, c: int) -> int {
    match op {
        Repack::Copy { .. } => src[base + c] as int,
        Repack::Rgb { swap, .. } => if swap {
            src[base + 2 - c] as int
        } else {
            src[base + c] as int
        },
        Repack::BgraToRgba => if c < 3 {
            src[base + 2 - c] as int
        } else {
            src[base + 3] as int
        },
        Repack::RgbToRgba => if c < 3 {
            src[base + c] as int
        } else {
            255
        },
        Repack::Luma { swap, .. } => if swap {
            luma_of(src[base + 2] as int, src[base + 1] as int, src[base] as int)
        } else {
            luma_of(src[base] as int, src[base + 1] as int, src[base + 2] as int)
        },
    }
}

/// `out` holds the repack of `height` rows of `width` input pixels read
/// `stride` bytes apart from `src`, tightly packed.
pub open spec fn repacked(op: Repack, src: Seq<u8>, stride: int, width: int, height: int, out: Seq<u8>) -> bool {
    &&& out.len() == width * repack_out(op) * height
    &&& forall|y: int, x: int, c: int|
        0 <= y < height && 0 <= x < width && 0 <= c < repack_out(op) ==> #[trigger] out[pix(
            y,
            x,
            c,
            width * repack_out(op),
            repack_out(op),
        )] == repack_byte(op, src, pix(y, x, 0, stride, repack_in(op)), c)
}

/// Every input pixel of `height` rows of `width` pixels, `stride` bytes
/// apart, lies inside `len` bytes.
pub open spec fn rows_readable(len: int, stride: int, width: int, height: int, bpp: int) -> bool {
    &&& width * bpp <= stride
    &&& height > 0 ==> (height - 1) * stride + width * bpp <= len
}

fn repack_sizes(op: Repack) -> (r: (usize, usize))
    requires
        repack_ok(op),
    ensures
        r.0 == repack_in(op),
        r.1 == repack_out(op),
{
    match op {
        Repack::Copy { bpp } => (bpp, bpp),
        Repack::Rgb { in_bpp, .. } => (in_bpp, 3),
        Repack::BgraToRgba => (4, 4),
        Repack::RgbToRgba => (3, 4),
        Repack::Luma { in_bpp, .. } => (in_bpp, 1),
    }
}

fn luma_exec(r: u8, g: u8, b: u8) -> (l: u8)
    ensures
        l == luma_of(r as int, g as int, b as int),
{
    let sum: u32 = 77 * (r as u32) + 150 * (g as u32) + 29 * (b as u32);
    assert(sum >> 8 == sum / 256) by (bit_vector);
    (sum >> 8) as u8
}

fn repack_pixel_byte(op: Repack, src: &[u8], base: usize, c: usize) -> (r: u8)
    requires
        repack_ok(op),
        c < repack_out(op),
        base + repack_in(op) <= src@.len(),
    ensures
        r == repack_byte(op, src@, base as int, c as int),
{
    let n = src.len();
    assert(base + repack_in(op) <= n);
    match op {
        Repack::Copy { .. } => src[base + c],
        Repack::Rgb { swap, .. } => if swap {
            src[base + 2 - c]
        } else {
            src[base + c]
        },
        Repack::BgraToRgba => if c < 3 {
            src[base + 2 - c]
        } else {
            src[base + 3]
        },
        Repack::RgbToRgba => if c < 3 {
            src[base + c]
        } else {
            255
        },
        Repack::Luma { swap, .. } => if swap {
            luma_exec(src[base + 2], src[base + 1], src[base])
        } else {
            luma_exec(src[base], src[base + 1], src[base + 2])
        },
    }
}

/// Repack `height` rows of `width` pixels, read `stride` bytes apart from
/// `src`, into a new tightly packed buffer.
pub fn repack_rows(op: Repack, src: &[u8], stride: usize, width: usize, height: usize) -> (out: Vec<u8>)
    requires
        repack_ok(op),
        rows_readable(src@.len() as int, stride as int, width as int, height as int, repack_in(op)),
        width * repack_out(op) * height <= usize::MAX,
    ensures
        repacked(op, src@, stride as int, width as int, height as int, out@),
{
    let (ib, ob) = repack_sizes(op);
    let src_len = src.len();
    proof {
        assert(width * ob <= width * ob * height || height == 0) by (nonlinear_arith)
            requires
                ob >= 1,
        ;
    }
    let mut out: Vec<u8> = Vec::new();
    let mut y: usize = 0;
    while y < height
        invariant
            y <= height,
            ib == repack_in(op),
            ob == repack_out(op),
            repack_ok(op),
            1 <= ib <= 4,
            1 <= ob <= 4,
            src_len == src@.len(),
            rows_readable(src_len as int, stride as int, width as int, height as int, ib as int),
            width * ob * height <= usize::MAX,
            out@.len() == y * (width * ob),
            forall|yy: int, x: int, c: int|
                0 <= yy < y && 0 <= x < width && 0 <= c < ob ==> #[trigger] out@[pix(
                    yy,
                    x,
                    c,
                    width * ob,
                    ob as int,
                )] == repack_byte(op, src@, pix(yy, x, 0, stride as int, ib as int), c),
        decreases height - y,
    {
        proof {
            assert(pix(y as int, 0, 0, width * ob, ob as int) == y * (width * ob));
        }
        let mut x: usize = 0;
        while x < width
            invariant
                y < height,
                x <= width,
                ib == repack_in(op),
                ob == repack_out(op),
                repack_ok(op),
                1 <= ib <= 4,
                1 <= ob <= 4,
                src_len == src@.len(),
                rows_readable(src_len as int, stride as int, width as int, height as int, ib as int),
                width * ob * height <= usize::MAX,
                out@.len() == pix(y as int, x as int, 0, width * ob, ob as int),
                forall|yy: int, xx: int, c: int|
                    0 <= yy <= y && 0 <= xx < width && 0 <= c < ob && (yy < y || xx < x)
                        ==> #[trigger] out@[pix(yy, xx, c, width * ob, ob as int)] == repack_byte(
                        op,
                        src@,
                        pix(yy, xx, 0, stride as int, ib as int),
                        c,
                    ),
            decreases width - x,
        {
            proof {
                assert(y * stride + x * ib + ib <= (height - 1) * stride + width * ib) by (nonlinear_arith)
                    requires
                        y < height,
                        x < width,
                ;
                assert(pix(y as int, x as int, 0, width * ob, ob as int) + ob <= width * ob * height) by (nonlinear_arith)
                    requires
                        y < height,
                        x < width,
                ;
            }
            let base = y * stride + x * ib;
            let ghost start = out@.len();
            let ghost prefix = out@;
            let mut c: usize = 0;
            while c < ob
                invariant
                    c <= ob,
                    ib == repack_in(op),
                    ob == repack_out(op),
                    repack_ok(op),
                    base + ib <= src@.len(),
                    out@.len() == start + c,
                    start + ob <= width * ob * height,
                    width * ob * height <= usize::MAX,
                    forall|p: int| 0 <= p < start ==> #[trigger] out@[p] == prefix[p],
                    forall|k: int| 0 <= k < c ==> #[trigger] out@[start + k] == repack_byte(op, src@, base as int, k),
                decreases ob - c,
            {
                let b = repack_pixel_byte(op, src, base, c);
                out.push(b);
                c = c + 1;
            }
            proof {
                assert(pix(y as int, (x + 1) as int, 0, width * ob, ob as int) == start + ob) by (nonlinear_arith)
                    requires
                        start == pix(y as int, x as int, 0, width * ob, ob as int),
                ;
                assert forall|yy: int, xx: int, cc: int|
                    0 <= yy <= y && 0 <= xx < width && 0 <= cc < ob && (yy < y || xx < x + 1)
                        implies #[trigger] out@[pix(yy, xx, cc, width * ob, ob as int)] == repack_byte(
                        op,
                        src@,
                        pix(yy, xx, 0, stride as int, ib as int),
                        cc,
                    ) by {
                    if yy < y || xx < x {
                        lemma_pixel_before(yy, xx, cc, y as int, x as int, 0, width as int, ob as int);
                        assert(out@[pix(yy, xx, cc, width * ob, ob as int)] == prefix[pix(yy, xx, cc, width * ob, ob as int)]);
                    } else {
                        assert(pix(yy, xx, cc, width * ob, ob as int) == start + cc);
                        assert(pix(yy, xx, 0, stride as int, ib as int) == base);
                    }
                }
            }
            x = x + 1;
        }
        proof {
            assert(pix(y as int, width as int, 0, width * ob, ob as int) == (y + 1) * (width * ob)) by (nonlinear_arith);
        }
        y = y + 1;
    }
    proof {
        assert(height * (width * ob) == width * ob * height) by (nonlinear_arith);
    }
    out
}

/// Channel layout of an 8-bit image.
#[derive(Debug, Clone, Copy, PartialEq, Eq, Structural)]
pub enum ImageKind {
    Luma8,
    Rgb8,
    Rgba8,
}

/// A tightly packed 8-bit image: `height` rows of `width` pixels.
#[derive(Debug, Clone)]
pub struct PixelImage {
    pub kind: ImageKind,
    pub width: u32,
    pub height: u32,
    pub data: Vec<u8>,
}

impl PixelImage {
    /// The image's bytes are exactly its rows: `width` pixels of its kind's
    /// bytes per pixel, `height` times.
    pub open spec fn well_formed(&self) -> bool {
        self.data@.len() == self.width * kind_bpp(self.kind) * self.height
    }
}

/// The repack that turns a packed frame of this code into an image, and
/// the image's kind; none for codes that need a YUV conversion or are not
/// converted.
pub open spec fn image_repack(code: FourCc) -> Option<(Repack, ImageKind)> {
    match code {
        FourCc::R8 | FourCc::GREY => Some((Repack::Copy { bpp: 1 }, ImageKind::Luma8)),
        FourCc::RG24 => Some((Repack::Copy { bpp: 3 }, ImageKind::Rgb8)),
        FourCc::RGBA => Some((Repack::Copy { bpp: 4 }, ImageKind::Rgba8)),
        FourCc::BGR3 | FourCc::BG24 => Some((Repack::Rgb { in_bpp: 3, swap: true }, ImageKind::Rgb8)),
        FourCc::BGRA => Some((Repack::BgraToRgba, ImageKind::Rgba8)),
        FourCc::XB24 => Some((Repack::Rgb { in_bpp: 4, swap: true }, ImageKind::Rgb8)),
        FourCc::XR24 => Some((Repack::Rgb { in_bpp: 4, swap: false }, ImageKind::Rgb8)),
        _ => None,
    }
}

fn image_repack_for(code: FourCc) -> (r: Option<(Repack, ImageKind)>)
    ensures
        r == image_repack(code),
{
    match code {
        FourCc::R8 | FourCc::GREY => Some((Repack::Copy { bpp: 1 }, ImageKind::Luma8)),
        FourCc::RG24 => Some((Repack::Copy { bpp: 3 }, ImageKind::Rgb8)),
        FourCc::RGBA => Some((Repack::Copy { bpp: 4 }, ImageKind::Rgba8)),
        FourCc::BGR3 | FourCc::BG24 => Some((Repack::Rgb { in_bpp: 3, swap: true }, ImageKind::Rgb8)),
        FourCc::BGRA => Some((Repack::BgraToRgba, ImageKind::Rgba8)),
        FourCc::XB24 => Some((Repack::Rgb { in_bpp: 4, swap: true }, ImageKind::Rgb8)),
        FourCc::XR24 => Some((Repack::Rgb { in_bpp: 4, swap: false }, ImageKind::Rgb8)),
        _ => None,
    }
}

/// Row pitch an image conversion reads a plane with: the plane's, widened
/// to a full row of `bpp`-byte pixels.
pub open spec fn image_stride(plane: Plane, width: int, bpp: int) -> int {
    max_int(plane.pitch() as int, width * bpp)
}

/// The frame has a first plane holding `height` rows at the read pitch.
pub open spec fn image_plane_fits(meta: FrameMeta, planes: Seq<Plane>, bpp: int) -> bool {
    let w = meta.format.resolution.width@ as int;
    let h = meta.format.resolution.height@ as int;
    &&& planes.len() > 0
    &&& image_stride(planes[0], w, bpp) * h <= usize::MAX
    &&& planes[0].bytes().len() >= image_stride(planes[0], w, bpp) * h
}

/// `img` is a `kind` image of the frame's size.
pub open spec fn image_shape(img: PixelImage, kind: ImageKind, meta: FrameMeta) -> bool {
    &&& img.kind == kind
    &&& img.width == meta.format.resolution.width@
    &&& img.height == meta.format.resolution.height@
}

/// What converting a frame to an image gives: for packed codes the repack
/// of the first plane, wherever it holds the frame; for YUYV, NV12, NV21
/// and I420 an RGB image wherever the planes hold the frame, which, for
/// frames the conversion library does not convert (YUYV frames not
/// tightly packed; NV12, NV21 and I420 frames whose pitches cannot be
/// handed to it or whose sizes it refuses), is the integer conversion of
/// every pixel; nothing for other codes.
pub open spec fn dynamic_image_spec(meta: FrameMeta, planes: Seq<Plane>, r: Option<PixelImage>) -> bool {
    let code = meta.format.code;
    let w = meta.format.resolution.width@ as int;
    let h = meta.format.resolution.height@ as int;
    &&& r matches Some(img) ==> img.well_formed()
    &&& match image_repack(code) {
        Some((op, kind)) => {
            &&& r is Some <==> image_plane_fits(meta, planes, repack_in(op))
            &&& r matches Some(img) ==> image_shape(img, kind, meta) && repacked(
                op,
                planes[0].bytes(),
                image_stride(planes[0], w, repack_in(op)),
                w,
                h,
                img.data@,
            )
        },
        None => if code == FourCc::YUYV {
            let s = image_stride(planes[0], w, 2);
            &&& r is Some <==> image_plane_fits(meta, planes, 2) && w * 3 * h <= usize::MAX
            &&& r matches Some(img) ==> image_shape(img, ImageKind::Rgb8, meta) && img.data@.len() == w * 3
                * h && (s * h != yuyv_tight_len(w, h) ==> forall|k: int|
                0 <= k < w * h ==> #[trigger] rgb_of(img.data@, k) == yuyv_pixel(
                    planes[0].bytes(),
                    s,
                    meta.format.color,
                    k % w,
                    k / w,
                ))
        } else if code == FourCc::NV12 {
            let src = nv12_source(meta, planes);
            &&& r is Some <==> planes.len() >= 2 && nv12_failure(meta, planes, w * 3 * h) is None
            &&& r matches Some(img) ==> image_shape(img, ImageKind::Rgb8, meta) && img.data@.len() == w * 3 * h
                && (!biplanar_accepted(src, w, h, 2, 2) ==> forall|k: int|
                0 <= k < w * h ==> #[trigger] rgb_of(img.data@, k) == nv_pixel(src, meta.format.color, false, k % w, k / w))
        } else if code == FourCc::NV21 {
            let src = nv_source(meta, planes, 2, 2, false);
            &&& r is Some <==> nv_failure(meta, planes, 2, 2, w * 3 * h) is None
            &&& r matches Some(img) ==> image_shape(img, ImageKind::Rgb8, meta) && img.data@.len() == w * 3 * h
                && (!nv_library_used(FourCc::NV21, src, w, h) ==> forall|k: int|
                0 <= k < w * h ==> #[trigger] rgb_of(img.data@, k) == nv_pixel(src, meta.format.color, false, k % w, k / w))
        } else if code == FourCc::I420 {
            let src = planar_source(meta, planes, 2, 2, true);
            &&& r is Some <==> planar_failure(meta, planes, 2, 2, true, w * 3 * h) is None
            &&& r matches Some(img) ==> image_shape(img, ImageKind::Rgb8, meta) && img.data@.len() == w * 3 * h
                && (!planar_library_used(src, w, h) ==> forall|k: int|
                0 <= k < w * h ==> #[trigger] rgb_of(img.data@, k) == planar_pixel(src, meta.format.color, k % w, k / w))
        } else {
            r is None
        },
    }
}

/// Byte `k` of pixel `(x, y)` of a frame's first plane holding `bpp`-byte
/// pixels, rows read at the plane's pitch widened to a row of pixels.
pub open spec fn plane_px(plane: Plane, width: int, bpp: int, x: int, y: int, k: int) -> u8 {
    plane.bytes()[y * max_int(plane.pitch() as int, width * bpp) + x * bpp + k]
}

/// Converting a packed frame to an image puts each channel where its code
/// says it is: grey frames become grey images byte for byte; RGB and RGBA
/// frames keep their channel order; BGR and BGRx frames (`BGR3`, `BG24`,
/// `XB24`) become RGB with red from the third source byte and blue from
/// the first; `XR24` frames keep their first three bytes as RGB; BGRA
/// frames become RGBA with red and blue swapped and alpha kept.
pub proof fn lemma_frame_image_channels(meta: FrameMeta, planes: Seq<Plane>, r: Option<PixelImage>)
    requires
        dynamic_image_spec(meta, planes, r),
    ensures
        ({
            let code = meta.format.code;
            let w = meta.format.resolution.width@ as int;
            let h = meta.format.resolution.height@ as int;
            &&& (code == FourCc::R8 || code == FourCc::GREY) ==> (r matches Some(img) ==> img.kind == ImageKind::Luma8
                && forall|y: int, x: int|
                0 <= y < h && 0 <= x < w ==> #[trigger] img.data@[y * w + x] == plane_px(planes[0], w, 1, x, y, 0))
            &&& code == FourCc::RG24 ==> (r matches Some(img) ==> img.kind == ImageKind::Rgb8 && forall|y: int, x: int, c: int|
                0 <= y < h && 0 <= x < w && 0 <= c < 3 ==> #[trigger] img.data@[y * (3 * w) + 3 * x + c] == plane_px(
                planes[0],
                w,
                3,
                x,
                y,
                c,
            ))
            &&& code == FourCc::RGBA ==> (r matches Some(img) ==> img.kind == ImageKind::Rgba8 && forall|y: int, x: int, c: int|
                0 <= y < h && 0 <= x < w && 0 <= c < 4 ==> #[trigger] img.data@[y * (4 * w) + 4 * x + c] == plane_px(
                planes[0],
                w,
                4,
                x,
                y,
                c,
            ))
            &&& (code == FourCc::BGR3 || code == FourCc::BG24) ==> (r matches Some(img) ==> img.kind == ImageKind::Rgb8
                && forall|y: int, x: int, c: int|
                0 <= y < h && 0 <= x < w && 0 <= c < 3 ==> #[trigger] img.data@[y * (3 * w) + 3 * x + c] == plane_px(
                planes[0],
                w,
                3,
                x,
                y,
                2 - c,
            ))
            &&& code == FourCc::XB24 ==> (r matches Some(img) ==> img.kind == ImageKind::Rgb8 && forall|y: int, x: int, c: int|
                0 <= y < h && 0 <= x < w && 0 <= c < 3 ==> #[trigger] img.data@[y * (3 * w) + 3 * x + c] == plane_px(
                planes[0],
                w,
                4,
                x,
                y,
                2 - c,
            ))
            &&& code == FourCc::XR24 ==> (r matches Some(img) ==> img.kind == ImageKind::Rgb8 && forall|y: int, x: int, c: int|
                0 <= y < h && 0 <= x < w && 0 <= c < 3 ==> #[trigger] img.data@[y * (3 * w) + 3 * x + c] == plane_px(
                planes[0],
                w,
                4,
                x,
                y,
                c,
            ))
            &&& code == FourCc::BGRA ==> (r matches Some(img) ==> img.kind == ImageKind::Rgba8 && forall|y: int, x: int, c: int|
                0 <= y < h && 0 <= x < w && 0 <= c < 4 ==> #[trigger] img.data@[y * (4 * w) + 4 * x + c] == plane_px(
                planes[0],
                w,
                4,
                x,
                y,
                if c < 3 { 2 - c } else { 3 },
            ))
        }),
{
    let code = meta.format.code;
    let w = meta.format.resolution.width@ as int;
    let h = meta.format.resolution.height@ as int;
    if r is Some {
        let img = r->Some_0;
        match image_repack(code) {
            Some((op, kind)) => {
                let bi = repack_in(op);
                let bo = repack_out(op);
                let st = image_stride(planes[0], w, bi);
                assert forall|y: int, x: int, c: int| 0 <= y < h && 0 <= x < w && 0 <= c < bo implies #[trigger] img.data@[y
                    * (bo * w) + bo * x + c] == repack_byte(op, planes[0].bytes(), y * st + x * bi, c) by {
                    assert(img.data@[pix(y, x, c, w * bo, bo)] == repack_byte(op, planes[0].bytes(), pix(y, x, 0, st, bi), c));
                }
                if bo == 1 {
                    assert forall|y: int, x: int| 0 <= y < h && 0 <= x < w implies #[trigger] img.data@[y * w + x]
                        == repack_byte(op, planes[0].bytes(), y * st + x * bi, 0) by {
                        assert(img.data@[y * (bo * w) + bo * x + 0] == repack_byte(op, planes[0].bytes(), y * st + x * bi, 0));
                    }
                }
            },
            None => {},
        }
    }
}

/// Every code the image conversion repacks is a packed code, and the
/// conversion reads its pixels at the width the code's layout gives them.
pub proof fn lemma_image_repack_matches_layout(code: FourCc)
    ensures
        image_repack(code) matches Some((op, kind)) ==> crate::format::layout_info_of(code).storage
            == crate::format::FrameStorageKind::Packed && crate::format::layout_info_of(code).bytes_per_pixel
            == Some(repack_in(op) as usize),
{
}

/// The frames an image conversion runs to completion on: a YUYV frame
/// whose rows are odd in width is tightly packed with room for the last
/// pair (the integer conversion cannot finish such a row), and frames
/// handed to the conversion library are within its size arithmetic.
pub open spec fn dynamic_image_runs(meta: FrameMeta, planes: Seq<Plane>) -> bool {
    let code = meta.format.code;
    let w = meta.format.resolution.width@ as int;
    let h = meta.format.resolution.height@ as int;
    &&& code == FourCc::YUYV && image_plane_fits(meta, planes, 2) && w * 3 * h <= usize::MAX ==> {
        &&& yuyv_dims_ok(w, h)
        &&& w % 2 == 1 ==> image_stride(planes[0], w, 2) * h == yuyv_tight_len(w, h) && 3 * w <= u32::MAX
    }
    &&& code == FourCc::NV12 ==> w < u32::MAX
    &&& code == FourCc::NV21 ==> 2 * w <= u32::MAX
}

fn packed_to_image(op: Repack, kind: ImageKind, meta: &FrameMeta, planes: &Vec<Plane>) -> (r: Option<PixelImage>)
    requires
        repack_ok(op),
        4 * meta.format.resolution.width@ <= usize::MAX,
        repack_in(op) <= 4,
        repack_out(op) <= repack_in(op),
    ensures
        r is Some <==> image_plane_fits(*meta, planes@, repack_in(op)),
        r matches Some(img) ==> image_shape(img, kind, *meta) && repacked(
            op,
            planes@[0].bytes(),
            image_stride(planes@[0], meta.format.resolution.width@ as int, repack_in(op)),
            meta.format.resolution.width@ as int,
            meta.format.resolution.height@ as int,
            img.data@,
        ),
{
    if planes.len() == 0 {
        return None;
    }
    let plane = planes[0];
    let width = meta.format.resolution.width.get() as usize;
    let height = meta.format.resolution.height.get() as usize;
    let (ib, ob) = repack_sizes(op);
    assert(width * ib <= 4 * width) by (nonlinear_arith)
        requires
            ib <= 4,
    ;
    let row = width * ib;
    let stride = if plane.stride() >= row {
        plane.stride()
    } else {
        row
    };
    let required = match stride.checked_mul(height) {
        Some(n) => n,
        None => return None,
    };
    let data = plane.data();
    if data.len() < required {
        return None;
    }
    proof {
        assert((height - 1) * stride + width * ib <= stride * height) by (nonlinear_arith)
            requires
                height >= 1,
                width * ib <= stride,
        ;
        assert(width * ob <= width * ib) by (nonlinear_arith)
            requires
                ob <= ib,
        ;
        assert(width * ob * height <= stride * height) by (nonlinear_arith)
            requires
                width * ob <= width * ib,
                width * ib <= stride,
        ;
    }
    let out = repack_rows(op, data, stride, width, height);
    Some(PixelImage {
        kind,
        width: meta.format.resolution.width.get(),
        height: meta.format.resolution.height.get(),
        data: out,
    })
}

fn yuyv_to_image(meta: &FrameMeta, planes: &Vec<Plane>) -> (r: Option<PixelImage>)
    requires
        meta.format.code == FourCc::YUYV,
        4 * meta.format.resolution.width@ <= usize::MAX,
        dynamic_image_runs(*meta, planes@),
    ensures
        dynamic_image_spec(*meta, planes@, r),
{
    if planes.len() == 0 {
        return None;
    }
    let plane = planes[0];
    let width = meta.format.resolution.width.get() as usize;
    let height = meta.format.resolution.height.get() as usize;
    let color = meta.format.color;
    let stride = if plane.stride() >= width * 2 {
        plane.stride()
    } else {
        width * 2
    };
    let required = match stride.checked_mul(height) {
        Some(n) => n,
        None => return None,
    };
    let data = plane.data();
    if data.len() < required {
        return None;
    }
    let row_bytes = width * 3;
    let rgb_len = match row_bytes.checked_mul(height) {
        Some(n) => n,
        None => return None,
    };
    let mut rgb = vec![0u8; rgb_len];
    let src = slice_subrange(data, 0, required);
    let (range, matrix) = map_colorspace(color);
    proof {
        assert(row_bytes * (height - 1) + 3 * width == rgb_len) by (nonlinear_arith)
            requires
                rgb_len == row_bytes * height,
                row_bytes == width * 3,
                height >= 1,
        ;
        assert(width * height * 3 == rgb_len) by (nonlinear_arith)
            requires
                rgb_len == row_bytes * height,
                row_bytes == width * 3,
        ;
    }
    if !yuyv422_to_rgb_lib(src, stride, width, height, &mut rgb, rgb_len, row_bytes, range, matrix) {
        let ghost before = rgb@;
        yuyv_to_rgb_fallback(src, stride, width, height, color, &mut rgb);
        proof {
            let w = width as int;
            let h = height as int;
            assert(w % 2 == 0);
            assert forall|k: int| 0 <= k < w * h implies #[trigger] rgb_of(rgb@, k) == yuyv_pixel(
                data@,
                stride as int,
                color,
                k % w,
                k / w,
            ) by {
                lemma_pixel_coords(k, w, h);
                let x = k % w;
                let yy = k / w;
                assert(x < 2 * (w / 2));
                assert(yuyv_pixel(src@, stride as int, color, x, yy) == yuyv_pixel(data@, stride as int, color, x, yy)) by {
                    assert((x / 2) * 4 + 3 < 2 * w) by {
                        assert(x / 2 < w / 2);
                        assert(2 * (w / 2) == w);
                    }
                    assert(yy * stride + stride <= stride * h) by (nonlinear_arith)
                        requires
                            0 <= yy < h,
                            stride >= 0,
                    ;
                    assert(0 <= yy * stride) by (nonlinear_arith)
                        requires
                            0 <= yy,
                            stride >= 0,
                    ;
                    assert((x / 2) * 4 + 3 < stride);
                }
            }
        }
    }
    Some(PixelImage {
        kind: ImageKind::Rgb8,
        width: meta.format.resolution.width.get(),
        height: meta.format.resolution.height.get(),
        data: rgb,
    })
}

proof fn lemma_pixel_coords(k: int, w: int, h: int)
    requires
        0 <= k < w * h,
        0 < w,
    ensures
        0 <= k % w < w,
        0 <= k / w < h,
{
    vstd::arithmetic::div_mod::lemma_fundamental_div_mod(k, w);
    vstd::arithmetic::div_mod::lemma_mod_bound(k, w);
    assert(0 <= k / w < h) by (nonlinear_arith)
        requires
            k == w * (k / w) + k % w,
            0 <= k % w < w,
            0 <= k < w * h,
            0 < w,
    ;
}

/// Convert a frame to a tightly packed 8-bit image: grey, RGB and RGBA
/// frames are copied row by row, BGR, BGRA and the 32-bit RGB codes have
/// their channels reordered (alpha or padding dropped where the image is
/// RGB), and YUYV, NV12, NV21 and I420 frames are converted to RGB, the
/// conversion library taking path `mode` for NV12 and NV21.
/// Nothing comes back for other codes or where the planes do not hold the
/// frame.
pub fn frame_to_dynamic_image(meta: &FrameMeta, planes: &Vec<Plane>, mode: YuvModeKind) -> (r: Option<PixelImage>)
    requires
        4 * meta.format.resolution.width@ <= usize::MAX,
        dynamic_image_runs(*meta, planes@),
    ensures
        dynamic_image_spec(*meta, planes@, r),
{
    let code = meta.format.code;
    if let Some((op, kind)) = image_repack_for(code) {
        return packed_to_image(op, kind, meta, planes);
    }
    if code == FourCc::YUYV {
        return yuyv_to_image(meta, planes);
    }
    if code != FourCc::NV12 && code != FourCc::NV21 && code != FourCc::I420 {
        return None;
    }
    let width = meta.format.resolution.width.get() as usize;
    let height = meta.format.resolution.height.get() as usize;
    let row_bytes = width * 3;
    let rgb_len = match row_bytes.checked_mul(height) {
        Some(n) => n,
        None => return None,
    };
    let mut rgb = vec![0u8; rgb_len];
    let decoded = if code == FourCc::NV12 {
        if planes.len() < 2 {
            return None;
        }
        decode_nv12(false, mode, meta, planes, &mut rgb)
    } else if code == FourCc::NV21 {
        decode_nv(mode, FourCc::NV21, false, 2, 2, meta, planes, &mut rgb)
    } else {
        decode_i420_into(meta, planes, &mut rgb)
    };
    match decoded {
        Ok(_) => Some(PixelImage {
            kind: ImageKind::Rgb8,
            width: meta.format.resolution.width.get(),
            height: meta.format.resolution.height.get(),
            data: rgb,
        }),
        Err(_) => None,
    }
}

/// The codes an owned frame is turned into an image without a decoder,
/// with the repack used: grey, RGB and RGBA frames copied, and the luma
/// plane of NV12 and NV21 frames taken as a grey image.
pub open spec fn lease_image_repack(code: FourCc) -> Option<(Repack, ImageKind)> {
    match code {
        FourCc::R8 | FourCc::GREY | FourCc::NV12 | FourCc::NV21 => Some((Repack::Copy { bpp: 1 }, ImageKind::Luma8)),
        FourCc::RG24 => Some((Repack::Copy { bpp: 3 }, ImageKind::Rgb8)),
        FourCc::RGBA => Some((Repack::Copy { bpp: 4 }, ImageKind::Rgba8)),
        _ => None,
    }
}

/// Turn a frame that can be wrapped as an image without a decoder into
/// one: grey, RGB and RGBA frames row by row, and the luma plane of NV12
/// and NV21 frames as a grey image.  Nothing comes back, so that the
/// caller keeps the frame for a decoder, for other codes or where the
/// first plane does not hold the frame.
pub fn frame_lease_to_dynamic_image(meta: &FrameMeta, planes: &Vec<Plane>) -> (r: Option<PixelImage>)
    requires
        4 * meta.format.resolution.width@ <= usize::MAX,
    ensures
        match lease_image_repack(meta.format.code) {
            Some((op, kind)) => {
                &&& r is Some <==> image_plane_fits(*meta, planes@, repack_in(op))
                &&& r matches Some(img) ==> image_shape(img, kind, *meta) && repacked(
                    op,
                    planes@[0].bytes(),
                    image_stride(planes@[0], meta.format.resolution.width@ as int, repack_in(op)),
                    meta.format.resolution.width@ as int,
                    meta.format.resolution.height@ as int,
                    img.data@,
                )
            },
            None => r is None,
        },
        r matches Some(img) ==> img.well_formed(),
{
    match lease_image_repack_for(meta.format.code) {
        Some((op, kind)) => packed_to_image(op, kind, meta, planes),
        None => None,
    }
}

fn lease_image_repack_for(code: FourCc) -> (r: Option<(Repack, ImageKind)>)
    ensures
        r == lease_image_repack(code),
{
    match code {
        FourCc::R8 | FourCc::GREY | FourCc::NV12 | FourCc::NV21 => Some((Repack::Copy { bpp: 1 }, ImageKind::Luma8)),
        FourCc::RG24 => Some((Repack::Copy { bpp: 3 }, ImageKind::Rgb8)),
        FourCc::RGBA => Some((Repack::Copy { bpp: 4 }, ImageKind::Rgba8)),
        _ => None,
    }
}

/// A single-plane frame's metadata, row pitch and bytes.
#[derive(Debug, Clone)]
pub struct PackedFrame {
    pub meta: FrameMeta,
    pub stride: usize,
    pub data: Vec<u8>,
}

/// `f` is a frame of code `code` and color `color` at the resolution and
/// timestamp of `meta`, nothing else set, rows `stride` bytes apart.
pub open spec fn packed_frame_of(f: PackedFrame, meta: FrameMeta, code: FourCc, color: ColorSpace, stride: int) -> bool {
    &&& f.meta.format == (MediaFormat { code, resolution: meta.format.resolution, color })
    &&& f.meta.timestamp == meta.timestamp
    &&& f.meta.backend is None
    &&& f.meta.capture_instant is None
    &&& f.meta.residency is None
    &&& f.meta.last_transition is None
    &&& f.meta.mutability == FrameMutability::Mutable
    &&& f.stride == stride
}

/// Wrap `raw` as a single-plane frame of code `code` and color `color` at
/// the resolution and timestamp of `meta`, rows `stride` bytes apart;
/// nothing where `raw` is not exactly `height` rows.
pub fn make_single_plane_frame(
    meta: &FrameMeta,
    code: FourCc,
    color: ColorSpace,
    stride: usize,
    raw: Vec<u8>,
) -> (r: Option<PackedFrame>)
    ensures
        r is Some <==> stride * meta.format.resolution.height@ <= usize::MAX && raw@.len() == stride
            * meta.format.resolution.height@,
        r matches Some(f) ==> packed_frame_of(f, *meta, code, color, stride as int) && f.data@ == raw@,
{
    let height = meta.format.resolution.height.get() as usize;
    let len = match stride.checked_mul(height) {
        Some(n) => n,
        None => return None,
    };
    if raw.len() != len {
        return None;
    }
    Some(PackedFrame {
        meta: FrameMeta::new(MediaFormat::new(code, meta.format.resolution, color), meta.timestamp),
        stride,
        data: raw,
    })
}

/// The repack to RGB24 of a packed colour frame, and whether the frame
/// keeps its color space (it is already RGB); sRGB is assumed otherwise.
pub open spec fn rgb_repack(code: FourCc) -> Option<(Repack, bool)> {
    match code {
        FourCc::RGB3 | FourCc::RG24 => Some((Repack::Copy { bpp: 3 }, true)),
        FourCc::BGR3 | FourCc::BG24 => Some((Repack::Rgb { in_bpp: 3, swap: true }, false)),
        FourCc::RGBA => Some((Repack::Rgb { in_bpp: 4, swap: false }, false)),
        FourCc::BGRA => Some((Repack::Rgb { in_bpp: 4, swap: true }, false)),
        _ => None,
    }
}

fn rgb_repack_for(code: FourCc) -> (r: Option<(Repack, bool)>)
    ensures
        r == rgb_repack(code),
{
    match code {
        FourCc::RGB3 | FourCc::RG24 => Some((Repack::Copy { bpp: 3 }, true)),
        FourCc::BGR3 | FourCc::BG24 => Some((Repack::Rgb { in_bpp: 3, swap: true }, false)),
        FourCc::RGBA => Some((Repack::Rgb { in_bpp: 4, swap: false }, false)),
        FourCc::BGRA => Some((Repack::Rgb { in_bpp: 4, swap: true }, false)),
        _ => None,
    }
}

/// The repack to 8-bit luma of a packed colour frame.
pub open spec fn luma_repack(code: FourCc) -> Option<Repack> {
    match code {
        FourCc::RG24 | FourCc::RGB3 => Some(Repack::Luma { in_bpp: 3, swap: false }),
        FourCc::BGR3 | FourCc::BG24 => Some(Repack::Luma { in_bpp: 3, swap: true }),
        FourCc::RGBA => Some(Repack::Luma { in_bpp: 4, swap: false }),
        FourCc::BGRA => Some(Repack::Luma { in_bpp: 4, swap: true }),
        _ => None,
    }
}

fn luma_repack_for(code: FourCc) -> (r: Option<Repack>)
    ensures
        r == luma_repack(code),
{
    match code {
        FourCc::RG24 | FourCc::RGB3 => Some(Repack::Luma { in_bpp: 3, swap: false }),
        FourCc::BGR3 | FourCc::BG24 => Some(Repack::Luma { in_bpp: 3, swap: true }),
        FourCc::RGBA => Some(Repack::Luma { in_bpp: 4, swap: false }),
        FourCc::BGRA => Some(Repack::Luma { in_bpp: 4, swap: true }),
        _ => None,
    }
}

/// The first plane holds every pixel the repack reads, and the output fits
/// in memory.
pub open spec fn repack_runs(op: Repack, meta: FrameMeta, planes: Seq<Plane>) -> bool {
    let w = meta.format.resolution.width@ as int;
    let h = meta.format.resolution.height@ as int;
    planes.len() > 0 ==> {
        &&& rows_readable(
            planes[0].bytes().len() as int,
            image_stride(planes[0], w, repack_in(op)),
            w,
            h,
            repack_in(op),
        )
        &&& w * repack_out(op) * h <= usize::MAX
    }
}

/// `f` is the repack of the frame's first plane into a tightly packed
/// frame of code `code` and color `color`.
pub open spec fn repacked_frame(op: Repack, meta: FrameMeta, planes: Seq<Plane>, code: FourCc, color: ColorSpace, f: PackedFrame) -> bool {
    let w = meta.format.resolution.width@ as int;
    let h = meta.format.resolution.height@ as int;
    &&& packed_frame_of(f, meta, code, color, w * repack_out(op))
    &&& repacked(op, planes[0].bytes(), image_stride(planes[0], w, repack_in(op)), w, h, f.data@)
}

fn repack_frame(op: Repack, meta: &FrameMeta, plane: Plane, code: FourCc, color: ColorSpace) -> (r: PackedFrame)
    requires
        repack_ok(op),
        repack_in(op) <= 4,
        4 * meta.format.resolution.width@ <= usize::MAX,
        repack_runs(op, *meta, seq![plane]),
    ensures
        repacked_frame(op, *meta, seq![plane], code, color, r),
{
    let width = meta.format.resolution.width.get() as usize;
    let height = meta.format.resolution.height.get() as usize;
    let (ib, ob) = repack_sizes(op);
    assert(width * ib <= 4 * width && width * ob <= 4 * width) by (nonlinear_arith)
        requires
            ib <= 4,
            ob <= 4,
    ;
    let row = width * ib;
    let stride = if plane.stride() >= row {
        plane.stride()
    } else {
        row
    };
    let out = repack_rows(op, plane.data(), stride, width, height);
    let out_stride = width * ob;
    proof {
        assert(out@.len() == out_stride * height) by (nonlinear_arith)
            requires
                out@.len() == width * ob * height,
                out_stride == width * ob,
        ;
    }
    match make_single_plane_frame(meta, code, color, out_stride, out) {
        Some(f) => f,
        None => {
            assert(false);
            PackedFrame { meta: *meta, stride: 0, data: Vec::new() }
        },
    }
}

/// Convert a packed colour frame (RGB, BGR, RGBA or BGRA) to a tightly
/// packed RG24 frame; RGB frames keep their color space, the others are
/// marked sRGB.  Nothing for other codes or a frame without planes.
pub fn convert_packed_to_rgb(meta: &FrameMeta, planes: &Vec<Plane>) -> (r: Option<PackedFrame>)
    requires
        4 * meta.format.resolution.width@ <= usize::MAX,
        rgb_repack(meta.format.code) is Some ==> repack_runs(rgb_repack(meta.format.code)->Some_0.0, *meta, planes@),
    ensures
        r is Some <==> planes@.len() > 0 && rgb_repack(meta.format.code) is Some,
        r matches Some(f) ==> ({
            let (op, keep) = rgb_repack(meta.format.code)->Some_0;
            let color = if keep { meta.format.color } else { ColorSpace::Srgb };
            repacked_frame(op, *meta, planes@, FourCc::RG24, color, f)
        }),
{
    if planes.len() == 0 {
        return None;
    }
    match rgb_repack_for(meta.format.code) {
        Some((op, keep)) => {
            let color = if keep {
                meta.format.color
            } else {
                ColorSpace::Srgb
            };
            let plane = planes[0];
            assert(seq![plane] =~= planes@.subrange(0, 1));
            Some(repack_frame(op, meta, plane, FourCc::RG24, color))
        },
        None => None,
    }
}

/// Convert a packed colour frame (RGB, BGR, RGBA or BGRA) to an 8-bit
/// luma frame (code `R8`, unknown color space), each pixel
/// `(77 R + 150 G + 29 B) >> 8`.  Nothing for other codes or a frame
/// without planes.
pub fn convert_packed_to_luma(meta: &FrameMeta, planes: &Vec<Plane>) -> (r: Option<PackedFrame>)
    requires
        4 * meta.format.resolution.width@ <= usize::MAX,
        luma_repack(meta.format.code) is Some ==> repack_runs(luma_repack(meta.format.code)->Some_0, *meta, planes@),
    ensures
        r is Some <==> planes@.len() > 0 && luma_repack(meta.format.code) is Some,
        r matches Some(f) ==> repacked_frame(
            luma_repack(meta.format.code)->Some_0,
            *meta,
            planes@,
            FourCc::R8,
            ColorSpace::Unknown,
            f,
        ),
{
    if planes.len() == 0 {
        return None;
    }
    match luma_repack_for(meta.format.code) {
        Some(op) => {
            let plane = planes[0];
            assert(seq![plane] =~= planes@.subrange(0, 1));
            Some(repack_frame(op, meta, plane, FourCc::R8, ColorSpace::Unknown))
        },
        None => None,
    }
}

/// Convert the RGB24 frame `rgb` (at the resolution and timestamp of
/// `meta`) to a tightly packed, fully opaque RGBA frame marked sRGB.
/// Nothing for a frame without planes.
pub fn rgb_to_rgba_frame(meta: &FrameMeta, rgb: &Vec<Plane>) -> (r: Option<PackedFrame>)
    requires
        4 * meta.format.resolution.width@ <= usize::MAX,
        repack_runs(Repack::RgbToRgba, *meta, rgb@),
    ensures
        r is Some <==> rgb@.len() > 0,
        r matches Some(f) ==> repacked_frame(Repack::RgbToRgba, *meta, rgb@, FourCc::RGBA, ColorSpace::Srgb, f),
{
    if rgb.len() == 0 {
        return None;
    }
    let plane = rgb[0];
    assert(seq![plane] =~= rgb@.subrange(0, 1));
    Some(repack_frame(Repack::RgbToRgba, meta, plane, FourCc::RGBA, ColorSpace::Srgb))
}

/// Whether a frame of this code can be turned to grey: packed pixel
/// formats, NV12, YUYV, I420 and JPEG.
pub open spec fn luma_convertible(code: FourCc) -> bool {
    crate::format::packed_bpp_of(code) is Some || code == FourCc::NV12 || code == FourCc::YUYV
        || code == FourCc::I420 || crate::format::is_jpeg_code(code)
}

/// Whether a frame of this code can be turned to grey.
pub fn supports_luma_conversion(code: FourCc) -> (r: bool)
    ensures
        r == luma_convertible(code),
{
    code.packed_bytes_per_pixel().is_some() || code == FourCc::NV12 || code == FourCc::YUYV
        || code == FourCc::I420 || code.is_jpeg_encoded()
}


/// The conversion that takes a frame to RGB24.
#[derive(Debug, Clone, Copy, PartialEq, Eq, Structural)]
pub enum RgbRoute {
    /// The frame already is RGB24.
    Keep,
    /// Decode the JPEG data.
    Jpeg,
    Nv12,
    Yuyv,
    I420,
    /// Replicate 8-bit grey.
    Mono8,
    /// Repack a packed RGB layout (other codes have none).
    Packed,
}

/// The conversion that takes a frame of `code` to RGB24.
pub open spec fn rgb_route_of(code: FourCc) -> RgbRoute {
    if code == FourCc::RG24 {
        RgbRoute::Keep
    } else if crate::format::is_jpeg_code(code) {
        RgbRoute::Jpeg
    } else if code == FourCc::NV12 {
        RgbRoute::Nv12
    } else if code == FourCc::YUYV {
        RgbRoute::Yuyv
    } else if code == FourCc::I420 {
        RgbRoute::I420
    } else if code == FourCc::R8 || code == FourCc::GREY {
        RgbRoute::Mono8
    } else {
        RgbRoute::Packed
    }
}

/// The conversion that takes a frame of `code` to RGB24.
pub fn rgb_route(code: FourCc) -> (r: RgbRoute)
    ensures
        r == rgb_route_of(code),
{
    if code == FourCc::RG24 {
        RgbRoute::Keep
    } else if code.is_jpeg_encoded() {
        RgbRoute::Jpeg
    } else if code == FourCc::NV12 {
        RgbRoute::Nv12
    } else if code == FourCc::YUYV {
        RgbRoute::Yuyv
    } else if code == FourCc::I420 {
        RgbRoute::I420
    } else if code == FourCc::R8 || code == FourCc::GREY {
        RgbRoute::Mono8
    } else {
        RgbRoute::Packed
    }
}

/// The conversion that takes a frame to RGBA.
#[derive(Debug, Clone, Copy, PartialEq, Eq, Structural)]
pub enum RgbaRoute {
    /// The frame already is RGBA.
    Keep,
    /// Convert to RGB24, then add an opaque alpha.
    ViaRgb,
    /// No conversion reaches RGBA.
    Unsupported,
}

/// The conversion that takes a frame of `code` to RGBA: through RGB24 for
/// exactly the codes that can be turned to grey.
pub open spec fn rgba_route_of(code: FourCc) -> RgbaRoute {
    if code == FourCc::RGBA {
        RgbaRoute::Keep
    } else if luma_convertible(code) {
        RgbaRoute::ViaRgb
    } else {
        RgbaRoute::Unsupported
    }
}

/// The conversion that takes a frame of `code` to RGBA.
pub fn rgba_route(code: FourCc) -> (r: RgbaRoute)
    ensures
        r == rgba_route_of(code),
{
    if code == FourCc::RGBA {
        RgbaRoute::Keep
    } else if supports_luma_conversion(code) {
        RgbaRoute::ViaRgb
    } else {
        RgbaRoute::Unsupported
    }
}

/// The conversion that takes a frame to 8-bit grey.
#[derive(Debug, Clone, Copy, PartialEq, Eq, Structural)]
pub enum LumaRoute {
    /// The frame already is grey.
    Keep,
    Nv12,
    Yuyv,
    /// Decode the JPEG data to RGB24, then weigh its channels.
    Jpeg,
    /// Weigh the channels of a packed RGB layout (other codes have none).
    Packed,
}

/// The conversion that takes a frame of `code` to 8-bit grey.
pub open spec fn luma_route_of(code: FourCc) -> LumaRoute {
    if code == FourCc::R8 || code == FourCc::GREY {
        LumaRoute::Keep
    } else if code == FourCc::NV12 {
        LumaRoute::Nv12
    } else if code == FourCc::YUYV {
        LumaRoute::Yuyv
    } else if crate::format::is_jpeg_code(code) {
        LumaRoute::Jpeg
    } else {
        LumaRoute::Packed
    }
}

/// The conversion that takes a frame of `code` to 8-bit grey.
pub fn luma_route(code: FourCc) -> (r: LumaRoute)
    ensures
        r == luma_route_of(code),
{
    if code == FourCc::R8 || code == FourCc::GREY {
        LumaRoute::Keep
    } else if code == FourCc::NV12 {
        LumaRoute::Nv12
    } else if code == FourCc::YUYV {
        LumaRoute::Yuyv
    } else if code.is_jpeg_encoded() {
        LumaRoute::Jpeg
    } else {
        LumaRoute::Packed
    }
}


/// A frame of `code`, `res` and `color` at `timestamp`, nothing else set,
/// whose single plane holds `data`, rows `stride` bytes apart.
pub open spec fn raw_frame_of(f: PackedFrame, code: FourCc, res: Resolution, color: ColorSpace, timestamp: u64, stride: int) -> bool {
    &&& f.meta.format == (MediaFormat { code, resolution: res, color })
    &&& f.meta.timestamp == timestamp
    &&& f.meta.backend is None && f.meta.capture_instant is None && f.meta.residency is None
    &&& f.meta.mutability == FrameMutability::Mutable && f.meta.last_transition is None
    &&& f.stride == stride
}

/// A frame taking `raw` as its plane: nothing unless `raw` holds exactly
/// `height` rows of `stride` bytes.
pub fn frame_from_raw(
    code: FourCc,
    res: Resolution,
    color: ColorSpace,
    timestamp: u64,
    stride: usize,
    raw: Vec<u8>,
) -> (r: Option<PackedFrame>)
    ensures
        r is Some <==> stride * res.height@ <= usize::MAX && raw@.len() == stride * res.height@,
        r matches Some(f) ==> raw_frame_of(f, code, res, color, timestamp, stride as int) && f.data@ == raw@,
{
    let len = match stride.checked_mul(res.height.get() as usize) {
        Some(n) => n,
        None => return None,
    };
    if raw.len() != len {
        return None;
    }
    Some(PackedFrame { meta: FrameMeta::new(MediaFormat::new(code, res, color), timestamp), stride, data: raw })
}

/// A frame holding a copy of the first `height` rows of `stride` bytes of
/// `raw`: nothing unless `raw` holds that many.
pub fn frame_from_raw_copy(
    code: FourCc,
    res: Resolution,
    color: ColorSpace,
    timestamp: u64,
    stride: usize,
    raw: &[u8],
) -> (r: Option<PackedFrame>)
    ensures
        r is Some <==> stride * res.height@ <= usize::MAX && raw@.len() >= stride * res.height@,
        r matches Some(f) ==> raw_frame_of(f, code, res, color, timestamp, stride as int) && f.data@ == raw@.take(
            stride * res.height@,
        ),
{
    let len = match stride.checked_mul(res.height.get() as usize) {
        Some(n) => n,
        None => return None,
    };
    if raw.len() < len {
        return None;
    }
    let mut data: Vec<u8> = Vec::with_capacity(len);
    let mut i: usize = 0;
    while i < len
        invariant
            i <= len,
            len <= raw@.len(),
            data@ == raw@.take(i as int),
        decreases len - i,
    {
        data.push(raw[i]);
        assert(data@ =~= raw@.take(i + 1));
        i = i + 1;
    }
    Some(PackedFrame { meta: FrameMeta::new(MediaFormat::new(code, res, color), timestamp), data, stride })
}

/// The frame code, color space and bytes per pixel an image of this kind
/// becomes: grey `R8  ` of unknown color, sRGB `RG24` or `RGBA`.
pub open spec fn image_frame_format(kind: ImageKind) -> (FourCc, ColorSpace, int) {
    match kind {
        ImageKind::Luma8 => (FourCc::R8, ColorSpace::Unknown, 1),
        ImageKind::Rgb8 => (FourCc::RG24, ColorSpace::Srgb, 3),
        ImageKind::Rgba8 => (FourCc::RGBA, ColorSpace::Srgb, 4),
    }
}

fn image_frame_code(kind: ImageKind) -> (r: (FourCc, ColorSpace, usize))
    ensures
        (r.0, r.1, r.2 as int) == image_frame_format(kind),
{
    match kind {
        ImageKind::Luma8 => (FourCc::R8, ColorSpace::Unknown, 1),
        ImageKind::Rgb8 => (FourCc::RG24, ColorSpace::Srgb, 3),
        ImageKind::Rgba8 => (FourCc::RGBA, ColorSpace::Srgb, 4),
    }
}

/// `r` is the closest packed frame of `img` at `timestamp`: the image's
/// rows as a frame of the code its kind becomes; nothing for an image with
/// a zero side or whose data is not exactly its rows.
pub open spec fn image_frame(img: PixelImage, timestamp: u64, r: Option<PackedFrame>) -> bool {
    let (code, color, bpp) = image_frame_format(img.kind);
    let stride = img.width * bpp;
    &&& r is Some <==> img.width > 0 && img.height > 0 && img.data@.len() == stride * img.height
    &&& r matches Some(f) ==> f.meta.format.resolution.width@ == img.width && f.meta.format.resolution.height@
        == img.height && raw_frame_of(f, code, f.meta.format.resolution, color, timestamp, stride) && f.data@
        == img.data@ && stride * img.height <= usize::MAX
}

impl PixelImage {
    /// The closest packed frame: the image's rows as a frame of the code
    /// its kind becomes, at `timestamp`; nothing for an image with a zero
    /// side or whose data is not exactly its rows.
    pub fn into_frame(self, timestamp: u64) -> (r: Option<PackedFrame>)
        requires
            4 * self.width <= usize::MAX,
        ensures
            image_frame(self, timestamp, r),
    {
        let (code, color, bpp) = image_frame_code(self.kind);
        let res = match Resolution::new(self.width, self.height) {
            Some(res) => res,
            None => return None,
        };
        let stride = self.width as usize * bpp;
        let len = self.data.len();
        assert(len == self.data@.len());
        frame_from_raw(code, res, color, timestamp, stride, self.data)
    }

    /// The closest packed frame holding a copy of the image's rows; extra
    /// data past the rows is left out.
    pub fn to_frame(&self, timestamp: u64) -> (r: Option<PackedFrame>)
        requires
            4 * self.width <= usize::MAX,
        ensures
            ({
                let (code, color, bpp) = image_frame_format(self.kind);
                let stride = self.width * bpp;
                &&& r is Some <==> self.width > 0 && self.height > 0 && stride * self.height <= usize::MAX
                    && self.data@.len() >= stride * self.height
                &&& r matches Some(f) ==> f.meta.format.resolution.width@ == self.width
                    && f.meta.format.resolution.height@ == self.height && raw_frame_of(
                    f,
                    code,
                    f.meta.format.resolution,
                    color,
                    timestamp,
                    stride,
                ) && f.data@ == self.data@.take(stride * self.height)
            }),
    {
        let (code, color, bpp) = image_frame_code(self.kind);
        let res = match Resolution::new(self.width, self.height) {
            Some(res) => res,
            None => return None,
        };
        let stride = self.width as usize * bpp;
        frame_from_raw_copy(code, res, color, timestamp, stride, self.data.as_slice())
    }
}

/// An 8-bit image survives the round trip through a frame: a
/// well-formed grey, RGB or RGBA image with no zero side always becomes a
/// frame, and converting that frame (its one plane over its bytes at its
/// pitch) back to an image gives an image of the same kind, size and
/// bytes.
pub proof fn lemma_image_frame_round_trip(
    img: PixelImage,
    timestamp: u64,
    r: Option<PackedFrame>,
    plane: Plane,
    back: Option<PixelImage>,
)
    requires
        img.well_formed(),
        img.width > 0,
        img.height > 0,
        image_frame(img, timestamp, r),
        r matches Some(f) ==> plane.bytes() == f.data@ && plane.pitch() == f.stride && dynamic_image_spec(
            f.meta,
            seq![plane],
            back,
        ),
    ensures
        r is Some,
        back matches Some(b) && b.kind == img.kind && b.width == img.width && b.height == img.height && b.data@
            == img.data@,
{
    let (code, color, bpp) = image_frame_format(img.kind);
    let w = img.width as int;
    let h = img.height as int;
    assert(bpp == kind_bpp(img.kind));
    assert(img.data@.len() == w * bpp * h);
    let f = r->Some_0;
    let planes = seq![plane];
    assert(image_repack(code) == Some((Repack::Copy { bpp: bpp as usize }, img.kind)));
    assert(image_stride(plane, w, bpp) == w * bpp);
    assert(image_plane_fits(f.meta, planes, bpp));
    let b = back->Some_0;
    let op = Repack::Copy { bpp: bpp as usize };
    assert(repacked(op, plane.bytes(), w * bpp, w, h, b.data@));
    assert(b.data@.len() == w * bpp * h);
    assert forall|i: int| 0 <= i < b.data@.len() implies b.data@[i] == img.data@[i] by {
        let (y, x, c) = crate::transform::lemma_pixel_coords(i, w, h, bpp);
        assert(b.data@[pix(y, x, c, w * bpp, bpp)] == repack_byte(op, plane.bytes(), pix(y, x, 0, w * bpp, bpp), c));
    }
    assert(b.data@ =~= img.data@);
}

/// Convert an image back into the closest packed frame.
pub fn dynamic_image_to_frame(img: PixelImage, timestamp: u64) -> (r: Option<PackedFrame>)
    requires
        4 * img.width <= usize::MAX,
    ensures
        image_frame(img, timestamp, r),
{
    img.into_frame(timestamp)
}

/// Bytes per pixel of an image kind.
pub open spec fn kind_bpp(kind: ImageKind) -> int {
    match kind {
        ImageKind::Luma8 => 1,
        ImageKind::Rgb8 => 3,
        ImageKind::Rgba8 => 4,
    }
}

/// The RGB24 bytes of the first `n` pixels of an image: grey replicated
/// into the three channels, alpha dropped.
pub open spec fn rgb_pixels(img: PixelImage, n: int) -> Seq<u8> {
    Seq::new(
        (3 * n) as nat,
        |j: int|
            match img.kind {
                ImageKind::Luma8 => img.data@[j / 3],
                ImageKind::Rgb8 => img.data@[j],
                ImageKind::Rgba8 => img.data@[4 * (j / 3) + j % 3],
            },
    )
}

fn rgb_bytes(img: &PixelImage, n: usize) -> (r: Vec<u8>)
    requires
        img.data@.len() >= n * kind_bpp(img.kind),
        3 * n <= usize::MAX,
    ensures
        r@ == rgb_pixels(*img, n as int),
{
    let mut out: Vec<u8> = Vec::with_capacity(3 * n);
    let dl = img.data.len();
    let mut i: usize = 0;
    while i < n
        invariant
            i <= n,
            dl == img.data@.len(),
            3 * n <= usize::MAX,
            img.data@.len() >= n * kind_bpp(img.kind),
            out@ == rgb_pixels(*img, i as int),
        decreases n - i,
    {
        proof {
            assert(i * kind_bpp(img.kind) + kind_bpp(img.kind) <= n * kind_bpp(img.kind)) by (nonlinear_arith)
                requires
                    i < n,
                    kind_bpp(img.kind) >= 1,
            ;
        }
        let ghost before = out@;
        match img.kind {
            ImageKind::Luma8 => {
                let g = img.data[i];
                out.push(g);
                out.push(g);
                out.push(g);
            },
            ImageKind::Rgb8 => {
                out.push(img.data[3 * i]);
                out.push(img.data[3 * i + 1]);
                out.push(img.data[3 * i + 2]);
            },
            ImageKind::Rgba8 => {
                out.push(img.data[4 * i]);
                out.push(img.data[4 * i + 1]);
                out.push(img.data[4 * i + 2]);
            },
        }
        proof {
            assert(out@ =~= rgb_pixels(*img, i + 1)) by {
                assert forall|j: int| 0 <= j < 3 * (i + 1) implies out@[j] == rgb_pixels(*img, i + 1)[j] by {
                    if j >= 3 * i {
                        lemma_pixel_index(j, j - 3 * i, i as int, 3, (i + 1) as int);
                    }
                }
            }
        }
        i = i + 1;
    }
    out
}

fn kind_bytes(kind: ImageKind) -> (r: usize)
    ensures
        r == kind_bpp(kind),
{
    match kind {
        ImageKind::Luma8 => 1,
        ImageKind::Rgb8 => 3,
        ImageKind::Rgba8 => 4,
    }
}

/// `r` is the RGB24 frame of `img` at `timestamp`: present where the image
/// has no zero side, its RGB24 rows fit and its data holds its pixels
/// (`exact`: exactly, for an RGB image, whose data is taken as it is).
pub open spec fn rg24_frame(img: PixelImage, timestamp: u64, exact: bool, r: Option<PackedFrame>) -> bool {
    let w = img.width as int;
    let h = img.height as int;
    let holds = if exact && img.kind == ImageKind::Rgb8 {
        img.data@.len() == 3 * w * h
    } else {
        img.data@.len() >= w * h * kind_bpp(img.kind)
    };
    &&& r is Some <==> w > 0 && h > 0 && 3 * w * h <= usize::MAX && holds
    &&& r matches Some(f) ==> f.meta.format.resolution.width@ == w && f.meta.format.resolution.height@ == h
        && raw_frame_of(f, FourCc::RG24, f.meta.format.resolution, ColorSpace::Srgb, timestamp, 3 * w)
        && f.data@ == rgb_pixels(img, w * h)
}

fn to_rg24(img: &PixelImage, timestamp: u64, exact: bool) -> (r: Option<PackedFrame>)
    requires
        4 * img.width <= usize::MAX,
    ensures
        rg24_frame(*img, timestamp, exact, r),
{
    let res = match Resolution::new(img.width, img.height) {
        Some(res) => res,
        None => return None,
    };
    let stride = img.width as usize * 3;
    let len = match stride.checked_mul(img.height as usize) {
        Some(n) => n,
        None => return None,
    };
    let n = len / 3;
    proof {
        assert(len == 3 * (img.width * img.height)) by (nonlinear_arith)
            requires
                len == stride * img.height,
                stride == img.width * 3,
        ;
    }
    let dl = img.data.len();
    if exact && img.kind == ImageKind::Rgb8 {
        if dl != len {
            return None;
        }
    } else {
        let bpp = kind_bytes(img.kind);
        match n.checked_mul(bpp) {
            Some(need) => if dl < need {
                return None;
            },
            None => return None,
        }
    }
    let data = rgb_bytes(img, n);
    frame_from_raw(FourCc::RG24, res, ColorSpace::Srgb, timestamp, stride, data)
}

/// Convert an image into a tightly packed RG24 frame: an RGB image's data
/// must be exactly its rows; grey is replicated and alpha dropped.
pub fn dynamic_image_to_rg24_frame(img: PixelImage, timestamp: u64) -> (r: Option<PackedFrame>)
    requires
        4 * img.width <= usize::MAX,
    ensures
        rg24_frame(img, timestamp, true, r),
{
    to_rg24(&img, timestamp, true)
}

/// Copy an image into a tightly packed RG24 frame; data past its pixels is
/// left out.
pub fn dynamic_image_ref_to_rg24_frame(img: &PixelImage, timestamp: u64) -> (r: Option<PackedFrame>)
    requires
        4 * img.width <= usize::MAX,
    ensures
        rg24_frame(*img, timestamp, false, r),
{
    to_rg24(img, timestamp, false)
}

} // verus!
