//! YUV to RGB: the integer conversion, the colorimetry each color space
//! implies, and the packed YUYV and semi-planar NV12 decoders, which hand
//! the bulk conversion to `yuvutils_rs` and fall back to the integer
//! conversion where it refuses.
use vstd::prelude::*;

use crate::bayer::{lemma_pixel_index, rgb_of};
use crate::format::{ColorSpace, FourCc, MediaFormat};
use crate::frame::{sat_mul, saturating_mul};
use crate::meta::FrameMeta;
use crate::raw::{decoded_meta, CodecError};
use crate::rows::Plane;
use vstd::slice::slice_subrange;
use yuvutils_rs::{
    YuvBiPlanarImage, YuvConversionMode, YuvPackedImage, YuvPlanarImage, YuvRange, YuvStandardMatrix,
};

verus! {

/// Quantization range of YUV samples.
#[derive(Debug, Clone, Copy, PartialEq, Eq, Structural)]
pub enum YuvRangeKind {
    Limited,
    Full,
}

/// YUV to RGB matrix.
#[derive(Debug, Clone, Copy, PartialEq, Eq, Structural)]
pub enum YuvMatrixKind {
    Bt601,
    Bt709,
    Bt2020,
}

/// Which of the conversion library's fixed-point paths converts a
/// semi-planar frame: the faster, less precise one or the balanced one.
#[derive(Debug, Clone, Copy, PartialEq, Eq, Structural)]
pub enum YuvModeKind {
    Fast,
    Balanced,
}

/// The path image conversion takes for semi-planar frames: the fast one
/// on 64-bit ARM, the balanced one elsewhere.
pub fn preferred_yuv_mode(aarch64: bool) -> (m: YuvModeKind)
    ensures
        m == (if aarch64 {
            YuvModeKind::Fast
        } else {
            YuvModeKind::Balanced
        }),
{
    if aarch64 {
        YuvModeKind::Fast
    } else {
        YuvModeKind::Balanced
    }
}

/// Range and matrix a color space hint stands for: `Srgb` marks
/// full-range output with the Rec. 601 matrix; an unknown space is taken
/// as limited-range Rec. 709.
pub open spec fn yuv_params(color: ColorSpace) -> (YuvRangeKind, YuvMatrixKind) {
    match color {
        ColorSpace::Bt709 => (YuvRangeKind::Limited, YuvMatrixKind::Bt709),
        ColorSpace::Bt2020 => (YuvRangeKind::Limited, YuvMatrixKind::Bt2020),
        ColorSpace::Srgb => (YuvRangeKind::Full, YuvMatrixKind::Bt601),
        ColorSpace::Unknown => (YuvRangeKind::Limited, YuvMatrixKind::Bt709),
    }
}

/// Range and matrix of a color space hint.
pub fn map_colorspace(color: ColorSpace) -> (r: (YuvRangeKind, YuvMatrixKind))
    ensures
        r == yuv_params(color),
{
    match color {
        ColorSpace::Bt709 => (YuvRangeKind::Limited, YuvMatrixKind::Bt709),
        ColorSpace::Bt2020 => (YuvRangeKind::Limited, YuvMatrixKind::Bt2020),
        ColorSpace::Srgb => (YuvRangeKind::Full, YuvMatrixKind::Bt601),
        ColorSpace::Unknown => (YuvRangeKind::Limited, YuvMatrixKind::Bt709),
    }
}

/// Fixed-point coefficients (scaled by 256) of the integer conversion:
/// red from V, green from U and V, blue from U, and whether luma is full
/// range.  Limited-range Rec. 709 for `Bt709` and unknown spaces,
/// limited-range Rec. 2020 for `Bt2020`, full-range Rec. 601 for `Srgb`.
pub open spec fn yuv_coeffs(color: ColorSpace) -> (int, int, int, int, bool) {
    match color {
        ColorSpace::Bt709 => (459, 55, 136, 541, false),
        ColorSpace::Bt2020 => (430, 48, 166, 549, false),
        ColorSpace::Srgb => (359, 88, 183, 454, true),
        ColorSpace::Unknown => (459, 55, 136, 541, false),
    }
}

/// `v` clamped into `0..=255`.
pub open spec fn clamp_u8(v: int) -> u8 {
    if v < 0 {
        0
    } else if v > 255 {
        255
    } else {
        v as u8
    }
}

/// Luma offset and scale of the integer conversion.
pub open spec fn luma_term(y: int, full: bool) -> int {
    if full {
        256 * (if y > 0 { y } else { 0 })
    } else {
        298 * (if y - 16 > 0 { y - 16 } else { 0 })
    }
}

/// RGB of one YUV sample: each channel is the fixed-point sum rounded by
/// adding 128 and flooring the division by 256, then clamped to a byte.
#[verifier::opaque]
pub open spec fn yuv_rgb(y: int, u: int, v: int, color: ColorSpace) -> (u8, u8, u8) {
    let k = yuv_coeffs(color);
    let d = u - 128;
    let e = v - 128;
    let s = luma_term(y, k.4);
    (
        clamp_u8((s + k.0 * e + 128) / 256),
        clamp_u8((s - k.1 * d - k.2 * e + 128) / 256),
        clamp_u8((s + k.3 * d + 128) / 256),
    )
}

/// `v` is a 32-bit signed value.
pub open spec fn in_i32(v: int) -> bool {
    i32::MIN <= v <= i32::MAX
}

/// Every intermediate value of the conversion fits in 32 signed bits.
pub open spec fn yuv_fits(y: int, u: int, v: int, color: ColorSpace) -> bool {
    let k = yuv_coeffs(color);
    let d = u - 128;
    let e = v - 128;
    let s = luma_term(y, k.4);
    &&& in_i32(d) && in_i32(e) && in_i32(y - 16) && in_i32(s)
    &&& in_i32(k.0 * e) && in_i32(s + k.0 * e) && in_i32(s + k.0 * e + 128)
    &&& in_i32(k.1 * d) && in_i32(k.2 * e) && in_i32(s - k.1 * d) && in_i32(s - k.1 * d - k.2 * e)
    &&& in_i32(s - k.1 * d - k.2 * e + 128)
    &&& in_i32(k.3 * d) && in_i32(s + k.3 * d) && in_i32(s + k.3 * d + 128)
}

pub(crate) proof fn lemma_bytes_fit(y: int, u: int, v: int, color: ColorSpace)
    requires
        0 <= y <= 255,
        0 <= u <= 255,
        0 <= v <= 255,
    ensures
        yuv_fits(y, u, v, color),
{
}

fn floor_div256(x: i64) -> (r: i64)
    requires
        -0x1000_0000_0000 <= x <= 0x1000_0000_0000,
    ensures
        r == x / 256,
{
    if x >= 0 {
        x / 256
    } else {
        let q = (-x + 255) / 256;
        assert(-q == x / 256) by (nonlinear_arith)
            requires
                x < 0,
                q == (-x + 255) / 256,
        ;
        -q
    }
}

fn clamp_byte(v: i64) -> (r: u8)
    ensures
        r == clamp_u8(v as int),
{
    if v < 0 {
        0
    } else if v > 255 {
        255
    } else {
        v as u8
    }
}

/// RGB of one YUV sample in the given color space.
pub fn yuv_to_rgb(y: i32, u: i32, v: i32, color: ColorSpace) -> (r: (u8, u8, u8))
    requires
        yuv_fits(y as int, u as int, v as int, color),
    ensures
        r == yuv_rgb(y as int, u as int, v as int, color),
{
    reveal(yuv_rgb);
    let (r_v, g_u, g_v, b_u, full): (i64, i64, i64, i64, bool) = match color {
        ColorSpace::Bt709 => (459, 55, 136, 541, false),
        ColorSpace::Bt2020 => (430, 48, 166, 549, false),
        ColorSpace::Srgb => (359, 88, 183, 454, true),
        ColorSpace::Unknown => (459, 55, 136, 541, false),
    };
    let d = u as i64 - 128;
    let e = v as i64 - 128;
    let s: i64 = if full {
        256 * (if y > 0 { y as i64 } else { 0 })
    } else {
        298 * (if y as i64 - 16 > 0 { y as i64 - 16 } else { 0 })
    };
    let r = floor_div256(s + r_v * e + 128);
    let g = floor_div256(s - g_u * d - g_v * e + 128);
    let b = floor_div256(s + b_u * d + 128);
    (clamp_byte(r), clamp_byte(g), clamp_byte(b))
}

/// Row pitch a packed decoder reads with: the plane's, widened to a full
/// row of `bpp`-byte pixels (saturating), or exactly a full row where the
/// plane holds exactly `height` full rows.
pub open spec fn normalized_stride(plane_stride: int, len: int, width: int, height: int, bpp: int) -> int {
    let min = sat_mul(width, bpp);
    if min * height <= usize::MAX && len == min * height {
        min
    } else if plane_stride >= min {
        plane_stride
    } else {
        min
    }
}

/// Row pitch a packed decoder reads a plane with.
pub fn normalized_packed_stride(plane: &Plane, width: usize, height: usize, bytes_per_pixel: usize) -> (r: usize)
    ensures
        r == normalized_stride(plane.pitch() as int, plane.bytes().len() as int, width as int, height as int, bytes_per_pixel as int),
{
    let min_stride = saturating_mul(width, bytes_per_pixel);
    let mut stride = if plane.stride() >= min_stride {
        plane.stride()
    } else {
        min_stride
    };
    if let Some(tight_len) = min_stride.checked_mul(height) {
        if plane.data().len() == tight_len {
            stride = min_stride;
        }
    }
    stride
}


/// What a YUYV decoder can find wrong with its input or output buffer.
#[derive(Debug, Clone, Copy, PartialEq, Eq, Structural)]
pub enum YuyvFailure {
    MissingPlane,
    StrideOverflow,
    PlaneTooShort,
    OutputOverflow,
    DstTooShort,
}

/// The message of each failure, for the RGB or the luma decoder.
pub open spec fn yuyv_failure_text(luma: bool, f: YuyvFailure) -> &'static str {
    match f {
        YuyvFailure::MissingPlane => "yuyv frame missing plane",
        YuyvFailure::StrideOverflow => "yuyv stride overflow",
        YuyvFailure::PlaneTooShort => "yuyv plane buffer too short",
        YuyvFailure::OutputOverflow => if luma {
            "yuyv luma output overflow"
        } else {
            "yuyv output overflow"
        },
        YuyvFailure::DstTooShort => if luma {
            "yuyv luma dst buffer too short"
        } else {
            "yuyv dst buffer too short"
        },
    }
}

fn yuyv_failure_message(luma: bool, f: YuyvFailure) -> (r: String)
    ensures
        r@ == yuyv_failure_text(luma, f)@,
{
    let text: &str = match f {
        YuyvFailure::MissingPlane => "yuyv frame missing plane",
        YuyvFailure::StrideOverflow => "yuyv stride overflow",
        YuyvFailure::PlaneTooShort => "yuyv plane buffer too short",
        YuyvFailure::OutputOverflow => if luma {
            "yuyv luma output overflow"
        } else {
            "yuyv output overflow"
        },
        YuyvFailure::DstTooShort => if luma {
            "yuyv luma dst buffer too short"
        } else {
            "yuyv dst buffer too short"
        },
    };
    text.to_owned()
}

/// Row pitch a YUYV decoder reads the first plane with.
pub open spec fn yuyv_stride(meta: FrameMeta, plane: Plane) -> int {
    normalized_stride(
        plane.pitch() as int,
        plane.bytes().len() as int,
        meta.format.resolution.width@ as int,
        meta.format.resolution.height@ as int,
        2,
    )
}

/// The first thing wrong with a YUYV decode (RGB or luma) whose input code
/// matched.
pub open spec fn yuyv_failure(luma: bool, meta: FrameMeta, planes: Seq<Plane>, dst_len: int) -> Option<YuyvFailure> {
    let w = meta.format.resolution.width@ as int;
    let h = meta.format.resolution.height@ as int;
    let out = if luma { w * h } else { w * 3 * h };
    if planes.len() == 0 {
        Some(YuyvFailure::MissingPlane)
    } else {
        let stride = yuyv_stride(meta, planes[0]);
        if stride * h > usize::MAX {
            Some(YuyvFailure::StrideOverflow)
        } else if planes[0].bytes().len() < stride * h {
            Some(YuyvFailure::PlaneTooShort)
        } else if out > usize::MAX {
            Some(YuyvFailure::OutputOverflow)
        } else if dst_len < out {
            Some(YuyvFailure::DstTooShort)
        } else {
            None
        }
    }
}

/// RGB of pixel `(x, y)` of a YUYV frame: each pair of pixels shares four
/// bytes `Y0 U Y1 V`.
pub open spec fn yuyv_pixel(src: Seq<u8>, stride: int, color: ColorSpace, x: int, y: int) -> (u8, u8, u8) {
    let base = y * stride + (x / 2) * 4;
    yuv_rgb(src[base + (x % 2) * 2] as int, src[base + 1] as int, src[base + 3] as int, color)
}

/// Pixel `k` of the RGB24 buffer `before` after the integer YUYV
/// conversion of a `width`-wide frame: pixels of whole pairs are converted;
/// the last pixel of an odd-width row is left as it was.
pub open spec fn yuyv_fallback_px(
    src: Seq<u8>,
    stride: int,
    width: int,
    color: ColorSpace,
    before: Seq<u8>,
    k: int,
) -> (u8, u8, u8) {
    if k % width < 2 * (width / 2) {
        yuyv_pixel(src, stride, color, k % width, k / width)
    } else {
        rgb_of(before, k)
    }
}

proof fn lemma_pair_bytes(y: int, x: int, stride: int, width: int, height: int)
    by (nonlinear_arith)
    requires
        0 <= y < height,
        0 <= x,
        x + 1 < width,
        2 * width <= stride,
    ensures
        0 <= y * stride,
        y * stride + 2 * x + 3 < stride * height,
{
    assert(y * stride + stride <= height * stride);
}

proof fn lemma_coords(k: int, w: int, h: int)
    requires
        0 <= k < w * h,
        0 < w,
    ensures
        0 <= k % w < w,
        0 <= k / w < h,
        k == (k / w) * w + k % w,
{
    vstd::arithmetic::div_mod::lemma_fundamental_div_mod(k, w);
    vstd::arithmetic::div_mod::lemma_mod_bound(k, w);
    assert(0 <= k / w < h) by (nonlinear_arith)
        requires
            k == w * (k / w) + k % w,
            0 <= k % w < w,
            0 <= k < w * h,
            0 < w,
    ;
    assert(w * (k / w) == (k / w) * w) by (nonlinear_arith);
}

proof fn lemma_luma_index(k: int, w: int, h: int, stride: int)
    requires
        0 <= k < w * h,
        0 < w,
        2 * w <= stride,
    ensures
        0 <= (k / w) * stride + 2 * (k % w) < stride * h,
{
    lemma_coords(k, w, h);
    let y = k / w;
    let x = k % w;
    assert(0 <= y * stride + 2 * x < stride * h) by (nonlinear_arith)
        requires
            0 <= y < h,
            0 <= x < w,
            2 * w <= stride,
    {
        assert(y * stride + stride <= h * stride);
    }
}

proof fn lemma_pair_index(k: int, w: int, h: int, stride: int)
    requires
        0 <= k < w * h,
        0 < w,
        2 * w <= stride,
        k % w < 2 * (w / 2),
    ensures
        0 <= (k / w) * stride + ((k % w) / 2) * 4,
        (k / w) * stride + ((k % w) / 2) * 4 + 3 < stride * h,
{
    lemma_coords(k, w, h);
    let y = k / w;
    let x = k % w;
    assert((x / 2) * 4 + 3 < 2 * w);
    assert(0 <= y * stride && y * stride + 2 * w <= stride * h) by (nonlinear_arith)
        requires
            0 <= y < h,
            0 < w,
            2 * w <= stride,
    {
        assert(y * stride + stride <= h * stride);
    }
}

/// Convert a YUYV frame, rows `stride` bytes apart, to tightly packed RGB24
/// with the integer conversion, pair by pair.
pub fn yuyv_to_rgb_fallback(
    src: &[u8],
    stride: usize,
    width: usize,
    height: usize,
    color: ColorSpace,
    dst: &mut [u8],
)
    requires
        width >= 1,
        2 * width <= stride,
        stride * height <= src@.len(),
        width * height * 3 <= old(dst)@.len(),
    ensures
        final(dst)@.len() == old(dst)@.len(),
        forall|k: int|
            0 <= k < width * height ==> #[trigger] rgb_of(final(dst)@, k) == yuyv_fallback_px(
                src@,
                stride as int,
                width as int,
                color,
                old(dst)@,
                k,
            ),
        forall|p: int|
            width * height * 3 <= p < old(dst)@.len() ==> #[trigger] final(dst)@[p] == old(dst)@[p],
{
    let ghost w = width as int;
    let ghost h = height as int;
    let ghost orig = dst@;
    let n = dst.len();
    let slen = src.len();
    let mut y: usize = 0;
    let mut k: usize = 0;
    while y < height
        invariant
            y <= height,
            w == width,
            h == height,
            w >= 1,
            k == y * w,
            n == orig.len(),
            slen == src@.len(),
            orig == old(dst)@,
            2 * width <= stride,
            stride * height <= src@.len(),
            w * h * 3 <= orig.len(),
            dst@.len() == orig.len(),
            forall|j: int|
                0 <= j < k ==> #[trigger] rgb_of(dst@, j) == yuyv_fallback_px(src@, stride as int, w, color, orig, j),
            forall|p: int| 3 * k <= p < orig.len() ==> #[trigger] dst@[p] == orig[p],
        decreases height - y,
    {
        let mut x: usize = 0;
        while x + 1 < width
            invariant
                x <= width,
                x % 2 == 0,
                y < height,
                w == width,
                h == height,
                k == y * w + x,
                n == orig.len(),
                slen == src@.len(),
                2 * width <= stride,
                stride * height <= src@.len(),
                w * h * 3 <= orig.len(),
                dst@.len() == orig.len(),
                forall|j: int|
                    0 <= j < k ==> #[trigger] rgb_of(dst@, j) == yuyv_fallback_px(src@, stride as int, w, color, orig, j),
                forall|p: int| 3 * k <= p < orig.len() ==> #[trigger] dst@[p] == orig[p],
            decreases width - x,
        {
            proof {
                lemma_pixel_index(k as int, x as int, y as int, w, h);
                lemma_pixel_index(k as int + 1, x as int + 1, y as int, w, h);
                lemma_pair_bytes(y as int, x as int, stride as int, w, h);
                lemma_bytes_fit(src@[y * stride + 2 * x] as int, src@[y * stride + 2 * x + 1] as int, src@[y * stride + 2 * x + 3] as int, color);
                lemma_bytes_fit(src@[y * stride + 2 * x + 2] as int, src@[y * stride + 2 * x + 1] as int, src@[y * stride + 2 * x + 3] as int, color);
            }
            let base = y * stride + 2 * x;
            let y0 = src[base] as i32;
            let u = src[base + 1] as i32;
            let y1 = src[base + 2] as i32;
            let v = src[base + 3] as i32;
            let (r0, g0, b0) = yuv_to_rgb(y0, u, v, color);
            let (r1, g1, b1) = yuv_to_rgb(y1, u, v, color);
            let ghost before = dst@;
            dst[3 * k] = r0;
            dst[3 * k + 1] = g0;
            dst[3 * k + 2] = b0;
            dst[3 * k + 3] = r1;
            dst[3 * k + 4] = g1;
            dst[3 * k + 5] = b1;
            proof {
                assert(x / 2 * 4 == 2 * x);
                assert((x + 1) / 2 * 4 == 2 * x);
                assert forall|j: int| 0 <= j < k + 2 implies #[trigger] rgb_of(dst@, j)
                    == yuyv_fallback_px(src@, stride as int, w, color, orig, j) by {
                    if j < k {
                        assert(rgb_of(before, j) == rgb_of(dst@, j));
                    }
                }
            }
            k = k + 2;
            x = x + 2;
        }
        if x < width {
            proof {
                lemma_pixel_index(k as int, x as int, y as int, w, h);
                assert(rgb_of(dst@, k as int) == rgb_of(orig, k as int));
            }
            k = k + 1;
            x = x + 1;
        }
        assert(k == (y + 1) * w) by (nonlinear_arith)
            requires
                k == y * w + w,
        ;
        y = y + 1;
    }
    assert(k == w * h) by (nonlinear_arith)
        requires
            k == h * w,
    ;
}


/// Extract the luma of a YUYV frame, rows `stride` bytes apart, into a
/// tightly packed GREY buffer: pixel `(x, y)` is byte `y * stride + 2 * x`.
pub fn yuyv_to_luma(src: &[u8], stride: usize, width: usize, height: usize, dst: &mut [u8])
    requires
        2 * width <= stride,
        stride * height <= src@.len(),
        width * height <= old(dst)@.len(),
    ensures
        final(dst)@.len() == old(dst)@.len(),
        forall|k: int|
            0 <= k < width * height ==> #[trigger] final(dst)@[k] == src@[(k / (width as int)) * stride
                + 2 * (k % (width as int))],
        forall|p: int| width * height <= p < old(dst)@.len() ==> #[trigger] final(dst)@[p] == old(dst)@[p],
{
    let ghost w = width as int;
    let ghost h = height as int;
    let slen = src.len();
    let mut y: usize = 0;
    let mut k: usize = 0;
    while y < height
        invariant
            y <= height,
            w == width,
            h == height,
            k == y * w,
            slen == src@.len(),
            2 * width <= stride,
            stride * height <= src@.len(),
            w * h <= old(dst)@.len(),
            dst@.len() == old(dst)@.len(),
            forall|j: int| 0 <= j < k ==> #[trigger] dst@[j] == src@[(j / w) * stride + 2 * (j % w)],
            forall|p: int| k <= p < old(dst)@.len() ==> #[trigger] dst@[p] == old(dst)@[p],
        decreases height - y,
    {
        let mut x: usize = 0;
        while x < width
            invariant
                x <= width,
                y < height,
                w == width,
                h == height,
                k == y * w + x,
                slen == src@.len(),
                2 * width <= stride,
                stride * height <= src@.len(),
                w * h <= old(dst)@.len(),
                dst@.len() == old(dst)@.len(),
                forall|j: int| 0 <= j < k ==> #[trigger] dst@[j] == src@[(j / w) * stride + 2 * (j % w)],
                forall|p: int| k <= p < old(dst)@.len() ==> #[trigger] dst@[p] == old(dst)@[p],
            decreases width - x,
        {
            proof {
                lemma_pixel_index(k as int, x as int, y as int, w, h);
                assert(0 <= y * stride && y * stride + 2 * x < stride * height) by (nonlinear_arith)
                    requires
                        0 <= y < height,
                        x < width,
                        2 * width <= stride,
                {
                    assert(y * stride + stride <= height * stride);
                }
            }
            dst[k] = src[y * stride + 2 * x];
            k = k + 1;
            x = x + 1;
        }
        assert(k == (y + 1) * w) by (nonlinear_arith)
            requires
                k == y * w + w,
        ;
        y = y + 1;
    }
    assert(k == w * h) by (nonlinear_arith)
        requires
            k == h * w,
    ;
}

/// Bytes of a YUYV frame the conversion library accepts: `height` rows of
/// the width rounded up to even, two bytes per pixel.
pub open spec fn yuyv_tight_len(width: int, height: int) -> int {
    if width % 2 == 0 {
        2 * width * height
    } else {
        2 * (width + 1) * height
    }
}

/// Calls `yuvutils_rs::yuyv422_to_rgb` on the `width` by `height` YUYV
/// frame `src` (rows `stride` bytes apart), writing RGB24 rows
/// `row_bytes` apart into the first `out_len` bytes of `dst`, with the
/// given range and matrix; tells whether the library accepted the frame.
///
/// Claimed, from the library's source: bytes of `dst` from `out_len` on are
/// untouched; a refusal writes nothing; the library refuses unless `src`
/// holds exactly `yuyv_tight_len(width, height)` bytes, and accepts such a
/// frame whenever the output rows fit: a pitch of at least `3 * width`
/// that fits in 32 bits, and `out_len` reaching the last row's last pixel.
/// The RGB values it writes when it accepts are not stated: it picks SIMD
/// code by CPU features at run time.
#[verifier::external_body]
pub(crate) fn yuyv422_to_rgb_lib(
    src: &[u8],
    stride: usize,
    width: usize,
    height: usize,
    dst: &mut [u8],
    out_len: usize,
    row_bytes: usize,
    range: YuvRangeKind,
    matrix: YuvMatrixKind,
) -> (ok: bool)
    requires
        out_len <= old(dst)@.len(),
        1 <= width,
        2 * width + 2 <= u32::MAX,
        1 <= height <= u32::MAX,
        stride * height == src@.len(),
        yuyv_tight_len(width as int, height as int) <= usize::MAX,
    ensures
        final(dst)@.len() == old(dst)@.len(),
        forall|p: int| out_len <= p < old(dst)@.len() ==> #[trigger] final(dst)@[p] == old(dst)@[p],
        !ok ==> final(dst)@ == old(dst)@,
        src@.len() != yuyv_tight_len(width as int, height as int) ==> !ok,
        src@.len() == yuyv_tight_len(width as int, height as int) && 3 * width <= row_bytes <= u32::MAX
            && row_bytes * (height - 1) + 3 * width <= out_len ==> ok,
{
    let image = YuvPackedImage { yuy: src, yuy_stride: stride as u32, width: width as u32, height: height as u32 };
    let range = match range { YuvRangeKind::Limited => YuvRange::Limited, YuvRangeKind::Full => YuvRange::Full };
    let matrix = match matrix {
        YuvMatrixKind::Bt601 => YuvStandardMatrix::Bt601,
        YuvMatrixKind::Bt709 => YuvStandardMatrix::Bt709,
        YuvMatrixKind::Bt2020 => YuvStandardMatrix::Bt2020,
    };
    yuvutils_rs::yuyv422_to_rgb(&image, &mut dst[..out_len], row_bytes as u32, range, matrix).is_ok()
}

/// Calls `yuvutils_rs::uyvy422_to_rgb`, as `yuyv422_to_rgb_lib` calls
/// `yuyv422_to_rgb`, on a frame whose pairs of pixels are laid out
/// `U Y0 V Y1`, with the same claims: the library runs the same size checks
/// and the same conversion loop for both byte orders.
#[verifier::external_body]
pub(crate) fn uyvy422_to_rgb_lib(
    src: &[u8],
    stride: usize,
    width: usize,
    height: usize,
    dst: &mut [u8],
    out_len: usize,
    row_bytes: usize,
    range: YuvRangeKind,
    matrix: YuvMatrixKind,
) -> (ok: bool)
    requires
        out_len <= old(dst)@.len(),
        1 <= width,
        2 * width + 2 <= u32::MAX,
        1 <= height <= u32::MAX,
        stride * height == src@.len(),
        yuyv_tight_len(width as int, height as int) <= usize::MAX,
    ensures
        final(dst)@.len() == old(dst)@.len(),
        forall|p: int| out_len <= p < old(dst)@.len() ==> #[trigger] final(dst)@[p] == old(dst)@[p],
        !ok ==> final(dst)@ == old(dst)@,
        src@.len() != yuyv_tight_len(width as int, height as int) ==> !ok,
        src@.len() == yuyv_tight_len(width as int, height as int) && 3 * width <= row_bytes <= u32::MAX
            && row_bytes * (height - 1) + 3 * width <= out_len ==> ok,
{
    let image = YuvPackedImage { yuy: src, yuy_stride: stride as u32, width: width as u32, height: height as u32 };
    let range = match range { YuvRangeKind::Limited => YuvRange::Limited, YuvRangeKind::Full => YuvRange::Full };
    let matrix = match matrix {
        YuvMatrixKind::Bt601 => YuvStandardMatrix::Bt601,
        YuvMatrixKind::Bt709 => YuvStandardMatrix::Bt709,
        YuvMatrixKind::Bt2020 => YuvStandardMatrix::Bt2020,
    };
    yuvutils_rs::uyvy422_to_rgb(&image, &mut dst[..out_len], row_bytes as u32, range, matrix).is_ok()
}

/// Decode the first plane of a YUYV frame into a caller-provided tightly
/// packed GREY buffer (the luma of each pixel).
pub fn decode_yuyv_luma_into(meta: &FrameMeta, planes: &Vec<Plane>, dst: &mut [u8]) -> (r: Result<FrameMeta, CodecError>)
    requires
        meta.format.code == FourCc::YUYV && yuyv_failure(true, *meta, planes@, old(dst)@.len() as int) is None
            ==> 2 * meta.format.resolution.width@ <= usize::MAX,
    ensures
        meta.format.code != FourCc::YUYV ==> (r matches Err(CodecError::FormatMismatch { expected, actual })
            && expected == FourCc::YUYV && actual == meta.format.code) && final(dst)@ == old(dst)@,
        meta.format.code == FourCc::YUYV && yuyv_failure(true, *meta, planes@, old(dst)@.len() as int) is Some
            ==> (r matches Err(CodecError::Codec(s)) && s@ == yuyv_failure_text(
            true,
            yuyv_failure(true, *meta, planes@, old(dst)@.len() as int)->Some_0,
        )@) && final(dst)@ == old(dst)@,
        meta.format.code == FourCc::YUYV && yuyv_failure(true, *meta, planes@, old(dst)@.len() as int) is None
            ==> ({
            let w = meta.format.resolution.width@ as int;
            let h = meta.format.resolution.height@ as int;
            let stride = yuyv_stride(*meta, planes@[0]);
            &&& r matches Ok(m) && decoded_meta(m, *meta, FourCc::GREY)
            &&& final(dst)@.len() == old(dst)@.len()
            &&& forall|k: int|
                0 <= k < w * h ==> #[trigger] final(dst)@[k] == planes@[0].bytes()[(k / w) * stride + 2 * (k
                    % w)]
            &&& forall|p: int| w * h <= p < old(dst)@.len() ==> #[trigger] final(dst)@[p] == old(dst)@[p]
        }),
{
    if meta.format.code != FourCc::YUYV {
        return Err(CodecError::FormatMismatch { expected: FourCc::YUYV, actual: meta.format.code });
    }
    let width = meta.format.resolution.width.get() as usize;
    let height = meta.format.resolution.height.get() as usize;
    if planes.len() == 0 {
        return Err(CodecError::Codec(yuyv_failure_message(true, YuyvFailure::MissingPlane)));
    }
    let plane = planes[0];
    let stride = normalized_packed_stride(&plane, width, height, 2);
    let required = match stride.checked_mul(height) {
        Some(n) => n,
        None => return Err(CodecError::Codec(yuyv_failure_message(true, YuyvFailure::StrideOverflow))),
    };
    let data = plane.data();
    if data.len() < required {
        return Err(CodecError::Codec(yuyv_failure_message(true, YuyvFailure::PlaneTooShort)));
    }
    let out_len = match width.checked_mul(height) {
        Some(n) => n,
        None => return Err(CodecError::Codec(yuyv_failure_message(true, YuyvFailure::OutputOverflow))),
    };
    if dst.len() < out_len {
        return Err(CodecError::Codec(yuyv_failure_message(true, YuyvFailure::DstTooShort)));
    }
    let src = slice_subrange(data, 0, required);
    yuyv_to_luma(src, stride, width, height, dst);
    proof {
        let w = width as int;
        let h = height as int;
        assert forall|k: int| 0 <= k < w * h implies #[trigger] dst@[k] == data@[(k / w) * stride + 2 * (k
            % w)] by {
            lemma_luma_index(k, w, h, stride as int);
        }
    }
    Ok(FrameMeta::new(MediaFormat::new(FourCc::GREY, meta.format.resolution, meta.format.color), meta.timestamp))
}

/// The frame sizes at which the conversion library can be handed a YUYV
/// frame without overflowing its own size arithmetic.
pub open spec fn yuyv_dims_ok(width: int, height: int) -> bool {
    &&& 2 * width + 2 <= u32::MAX
    &&& yuyv_tight_len(width, height) <= usize::MAX
}

/// Decode the first plane of a YUYV frame into a caller-provided tightly
/// packed RGB24 buffer: by the conversion library, or, where it refuses
/// (it takes tightly packed frames only), by the integer conversion.
pub fn decode_yuyv_into(meta: &FrameMeta, planes: &Vec<Plane>, dst: &mut [u8]) -> (r: Result<FrameMeta, CodecError>)
    requires
        meta.format.code == FourCc::YUYV && yuyv_failure(false, *meta, planes@, old(dst)@.len() as int) is None
            ==> yuyv_dims_ok(meta.format.resolution.width@ as int, meta.format.resolution.height@ as int),
    ensures
        meta.format.code != FourCc::YUYV ==> (r matches Err(CodecError::FormatMismatch { expected, actual })
            && expected == FourCc::YUYV && actual == meta.format.code) && final(dst)@ == old(dst)@,
        meta.format.code == FourCc::YUYV && yuyv_failure(false, *meta, planes@, old(dst)@.len() as int) is Some
            ==> (r matches Err(CodecError::Codec(s)) && s@ == yuyv_failure_text(
            false,
            yuyv_failure(false, *meta, planes@, old(dst)@.len() as int)->Some_0,
        )@) && final(dst)@ == old(dst)@,
        meta.format.code == FourCc::YUYV && yuyv_failure(false, *meta, planes@, old(dst)@.len() as int) is None
            ==> ({
            let w = meta.format.resolution.width@ as int;
            let h = meta.format.resolution.height@ as int;
            let stride = yuyv_stride(*meta, planes@[0]);
            &&& r matches Ok(m) && decoded_meta(m, *meta, FourCc::RG24)
            &&& final(dst)@.len() == old(dst)@.len()
            &&& stride * h != yuyv_tight_len(w, h) ==> forall|k: int|
                0 <= k < w * h ==> #[trigger] rgb_of(final(dst)@, k) == yuyv_fallback_px(
                    planes@[0].bytes(),
                    stride,
                    w,
                    meta.format.color,
                    old(dst)@,
                    k,
                )
            &&& forall|p: int| w * 3 * h <= p < old(dst)@.len() ==> #[trigger] final(dst)@[p] == old(dst)@[p]
        }),
{
    if meta.format.code != FourCc::YUYV {
        return Err(CodecError::FormatMismatch { expected: FourCc::YUYV, actual: meta.format.code });
    }
    let width = meta.format.resolution.width.get() as usize;
    let height = meta.format.resolution.height.get() as usize;
    let color = meta.format.color;
    if planes.len() == 0 {
        return Err(CodecError::Codec(yuyv_failure_message(false, YuyvFailure::MissingPlane)));
    }
    let plane = planes[0];
    let stride = normalized_packed_stride(&plane, width, height, 2);
    let required = match stride.checked_mul(height) {
        Some(n) => n,
        None => return Err(CodecError::Codec(yuyv_failure_message(false, YuyvFailure::StrideOverflow))),
    };
    let data = plane.data();
    if data.len() < required {
        return Err(CodecError::Codec(yuyv_failure_message(false, YuyvFailure::PlaneTooShort)));
    }
    let row_bytes = match width.checked_mul(3) {
        Some(n) => n,
        None => {
            assert(width * 3 * height > usize::MAX) by (nonlinear_arith)
                requires
                    width * 3 > usize::MAX,
                    height >= 1,
            ;
            return Err(CodecError::Codec(yuyv_failure_message(false, YuyvFailure::OutputOverflow)));
        },
    };
    let out_len = match row_bytes.checked_mul(height) {
        Some(n) => n,
        None => return Err(CodecError::Codec(yuyv_failure_message(false, YuyvFailure::OutputOverflow))),
    };
    if dst.len() < out_len {
        return Err(CodecError::Codec(yuyv_failure_message(false, YuyvFailure::DstTooShort)));
    }
    assert(width * height * 3 == out_len) by (nonlinear_arith)
        requires
            out_len == row_bytes * height,
            row_bytes == width * 3,
    ;
    let src = slice_subrange(data, 0, required);
    let (range, matrix) = map_colorspace(color);
    let ghost before = dst@;
    if !yuyv422_to_rgb_lib(src, stride, width, height, dst, out_len, row_bytes, range, matrix) {
        yuyv_to_rgb_fallback(src, stride, width, height, color, dst);
        proof {
            let w = width as int;
            let h = height as int;
            assert forall|k: int| 0 <= k < w * h implies #[trigger] rgb_of(dst@, k) == yuyv_fallback_px(
                data@,
                stride as int,
                w,
                color,
                before,
                k,
            ) by {
                if k % w < 2 * (w / 2) {
                    lemma_pair_index(k, w, h, stride as int);
                    assert(yuyv_pixel(src@, stride as int, color, k % w, k / w) == yuyv_pixel(
                        data@,
                        stride as int,
                        color,
                        k % w,
                        k / w,
                    ));
                }
            }
        }
    }
    Ok(FrameMeta::new(MediaFormat::new(FourCc::RG24, meta.format.resolution, meta.format.color), meta.timestamp))
}


/// What an NV12 decoder can find wrong with its input or output buffer.
#[derive(Debug, Clone, Copy, PartialEq, Eq, Structural)]
pub enum Nv12Failure {
    MissingPlanes,
    YStrideOverflow,
    UvStrideOverflow,
    PlaneTooShort,
    PlaneLengthOverflow,
    PackedPlaneTooShort,
    OutputOverflow,
    DstTooShort,
}

/// The message an NV12 decoder gives for each failure.
pub open spec fn nv12_failure_text(f: Nv12Failure) -> &'static str {
    match f {
        Nv12Failure::MissingPlanes => "nv12 frame missing planes",
        Nv12Failure::YStrideOverflow => "nv12 y stride overflow",
        Nv12Failure::UvStrideOverflow => "nv12 uv stride overflow",
        Nv12Failure::PlaneTooShort => "nv12 plane buffer too short",
        Nv12Failure::PlaneLengthOverflow => "nv12 plane length overflow",
        Nv12Failure::PackedPlaneTooShort => "nv12 packed plane buffer too short",
        Nv12Failure::OutputOverflow => "nv12 output overflow",
        Nv12Failure::DstTooShort => "nv12 dst buffer too short",
    }
}

fn nv12_failure_message(f: Nv12Failure) -> (r: String)
    ensures
        r@ == nv12_failure_text(f)@,
{
    let text: &str = match f {
        Nv12Failure::MissingPlanes => "nv12 frame missing planes",
        Nv12Failure::YStrideOverflow => "nv12 y stride overflow",
        Nv12Failure::UvStrideOverflow => "nv12 uv stride overflow",
        Nv12Failure::PlaneTooShort => "nv12 plane buffer too short",
        Nv12Failure::PlaneLengthOverflow => "nv12 plane length overflow",
        Nv12Failure::PackedPlaneTooShort => "nv12 packed plane buffer too short",
        Nv12Failure::OutputOverflow => "nv12 output overflow",
        Nv12Failure::DstTooShort => "nv12 dst buffer too short",
    };
    text.to_owned()
}

/// The larger of two integers.
pub open spec fn max_int(a: int, b: int) -> int {
    if a >= b {
        a
    } else {
        b
    }
}

/// The first thing wrong with an NV12 frame's planes: too few of them, a
/// plane size that overflows, or a plane too short for the frame.
pub open spec fn nv12_plane_failure(meta: FrameMeta, planes: Seq<Plane>) -> Option<Nv12Failure> {
    let w = meta.format.resolution.width@ as int;
    let h = meta.format.resolution.height@ as int;
    let cw = (w + 1) / 2;
    let ch = (h + 1) / 2;
    if planes.len() >= 2 {
        let ys = max_int(planes[0].pitch() as int, w);
        let uvs = max_int(planes[1].pitch() as int, cw * 2);
        if ys * h > usize::MAX {
            Some(Nv12Failure::YStrideOverflow)
        } else if uvs * ch > usize::MAX {
            Some(Nv12Failure::UvStrideOverflow)
        } else if planes[0].bytes().len() < ys * h || planes[1].bytes().len() < uvs * ch {
            Some(Nv12Failure::PlaneTooShort)
        } else {
            None
        }
    } else if planes.len() == 1 {
        let stride = max_int(planes[0].pitch() as int, w);
        if stride * h > usize::MAX {
            Some(Nv12Failure::YStrideOverflow)
        } else if stride * ch > usize::MAX {
            Some(Nv12Failure::UvStrideOverflow)
        } else if stride * h + stride * ch > usize::MAX {
            Some(Nv12Failure::PlaneLengthOverflow)
        } else if planes[0].bytes().len() < stride * h + stride * ch {
            Some(Nv12Failure::PackedPlaneTooShort)
        } else {
            None
        }
    } else {
        Some(Nv12Failure::MissingPlanes)
    }
}

/// The first thing wrong with an NV12 decode whose input code matched:
/// its planes, then the size of the RGB24 output and of the buffer for it.
pub open spec fn nv12_failure(meta: FrameMeta, planes: Seq<Plane>, dst_len: int) -> Option<Nv12Failure> {
    let w = meta.format.resolution.width@ as int;
    let h = meta.format.resolution.height@ as int;
    if nv12_plane_failure(meta, planes) is Some {
        nv12_plane_failure(meta, planes)
    } else if w * 3 * h > usize::MAX {
        Some(Nv12Failure::OutputOverflow)
    } else if dst_len < w * 3 * h {
        Some(Nv12Failure::DstTooShort)
    } else {
        None
    }
}

/// The planes an NV12 decode reads once its planes passed validation.
/// With two planes: the first `y_stride * height` luma bytes and the first
/// `uv_stride * chroma rows` chroma bytes, pitches widened to a row of
/// pixels and of chroma pairs.  With one plane: its first `stride *
/// height` bytes as luma and the `stride * chroma rows` after them as
/// chroma, the chroma pitch widened to a row of chroma pairs.
pub open spec fn nv12_source(meta: FrameMeta, planes: Seq<Plane>) -> SemiPlanar {
    let w = meta.format.resolution.width@ as int;
    let h = meta.format.resolution.height@ as int;
    let cw = (w + 1) / 2;
    let ch = (h + 1) / 2;
    if planes.len() >= 2 {
        let ys = max_int(planes[0].pitch() as int, w);
        let uvs = max_int(planes[1].pitch() as int, cw * 2);
        SemiPlanar {
            y_data: planes[0].bytes().subrange(0, ys * h),
            y_stride: ys,
            uv_data: planes[1].bytes().subrange(0, uvs * ch),
            uv_stride: uvs,
            sub_h: 2,
            sub_v: 2,
            uv_first: true,
        }
    } else {
        let s = max_int(planes[0].pitch() as int, w);
        SemiPlanar {
            y_data: planes[0].bytes().subrange(0, s * h),
            y_stride: s,
            uv_data: planes[0].bytes().subrange(s * h, s * h + s * ch),
            uv_stride: max_int(s, cw * 2),
            sub_h: 2,
            sub_v: 2,
            uv_first: true,
        }
    }
}

/// Where a semi-planar YUV frame's planes lie and how they are sampled: the
/// luma bytes with their row pitch, the interleaved chroma bytes with
/// theirs, the horizontal and vertical chroma subsampling, and whether each
/// chroma pair is U then V.
pub struct SemiPlanar {
    pub y_data: Seq<u8>,
    pub y_stride: int,
    pub uv_data: Seq<u8>,
    pub uv_stride: int,
    pub sub_h: int,
    pub sub_v: int,
    pub uv_first: bool,
}

/// Number of chroma samples covering `n` pixels at subsampling `sub`.
pub open spec fn chroma_len(n: int, sub: int) -> int {
    n / sub + if n % sub == 0 {
        0int
    } else {
        1int
    }
}

/// RGB (or BGR) of pixel `(x, y)` of a semi-planar frame: its own luma with
/// the chroma pair of its subsampling block.
pub open spec fn nv_pixel(src: SemiPlanar, color: ColorSpace, bgr: bool, x: int, y: int) -> (u8, u8, u8) {
    let c = (y / src.sub_v) * src.uv_stride + (x / src.sub_h) * 2;
    let (u, v) = if src.uv_first {
        (src.uv_data[c], src.uv_data[c + 1])
    } else {
        (src.uv_data[c + 1], src.uv_data[c])
    };
    let p = yuv_rgb(src.y_data[y * src.y_stride + x] as int, u as int, v as int, color);
    if bgr {
        (p.2, p.1, p.0)
    } else {
        p
    }
}

/// The planes hold every byte the integer conversion reads for a `width`
/// by `height` frame: each luma row, and each chroma row's pairs.
pub open spec fn nv_readable(src: SemiPlanar, width: int, height: int) -> bool {
    &&& src.sub_h >= 1
    &&& src.sub_v >= 1
    &&& 0 <= src.uv_stride
    &&& width <= src.y_stride
    &&& (height - 1) * src.y_stride + width <= src.y_data.len()
    &&& ((height - 1) / src.sub_v) * src.uv_stride + 2 * chroma_len(width, src.sub_h) <= src.uv_data.len()
}

proof fn lemma_chroma_index(x: int, w: int, sub: int)
    requires
        0 <= x < w,
        sub >= 1,
    ensures
        0 <= x / sub < chroma_len(w, sub),
{
    vstd::arithmetic::div_mod::lemma_div_is_ordered(x, w - 1, sub);
    vstd::arithmetic::div_mod::lemma_fundamental_div_mod(w, sub);
    vstd::arithmetic::div_mod::lemma_mod_bound(w, sub);
    vstd::arithmetic::div_mod::lemma_div_pos_is_pos(x, sub);
    let q = w / sub;
    let r = w % sub;
    if r == 0 {
        assert(w - 1 == sub * (q - 1) + (sub - 1)) by (nonlinear_arith)
            requires
                w == sub * q + r,
                r == 0,
        ;
        vstd::arithmetic::div_mod::lemma_fundamental_div_mod_converse(w - 1, sub, q - 1, sub - 1);
        assert((q - 1) * sub == sub * (q - 1)) by (nonlinear_arith);
    } else {
        assert(w - 1 == sub * q + (r - 1));
        vstd::arithmetic::div_mod::lemma_fundamental_div_mod_converse(w - 1, sub, q, r - 1);
        assert(q * sub == sub * q) by (nonlinear_arith);
    }
}

proof fn lemma_nv_indices(src: SemiPlanar, width: int, height: int, x: int, y: int)
    requires
        nv_readable(src, width, height),
        0 <= x < width,
        0 <= y < height,
    ensures
        0 <= y * src.y_stride + x < src.y_data.len(),
        0 <= (y / src.sub_v) * src.uv_stride + (x / src.sub_h) * 2,
        (y / src.sub_v) * src.uv_stride + (x / src.sub_h) * 2 + 1 < src.uv_data.len(),
{
    let ys = src.y_stride;
    let uvs = src.uv_stride;
    assert(0 <= y * ys <= (height - 1) * ys) by (nonlinear_arith)
        requires
            0 <= y <= height - 1,
            0 <= ys,
    ;
    vstd::arithmetic::div_mod::lemma_div_is_ordered(y, height - 1, src.sub_v);
    vstd::arithmetic::div_mod::lemma_div_pos_is_pos(y, src.sub_v);
    let yq = y / src.sub_v;
    let hq = (height - 1) / src.sub_v;
    assert(0 <= yq * uvs <= hq * uvs) by (nonlinear_arith)
        requires
            0 <= yq <= hq,
            0 <= uvs,
    ;
    lemma_chroma_index(x, width, src.sub_h);
}

/// Convert a semi-planar YUV frame to tightly packed RGB24 (or BGR24) with
/// the integer conversion, pixel by pixel.
pub fn nv_to_rgb_fallback(
    y_data: &[u8],
    y_stride: usize,
    uv_data: &[u8],
    uv_stride: usize,
    width: usize,
    height: usize,
    sub_h: usize,
    sub_v: usize,
    uv_first: bool,
    color: ColorSpace,
    bgr: bool,
    dst: &mut [u8],
)
    requires
        width >= 1,
        height >= 1,
        nv_readable(
            SemiPlanar {
                y_data: y_data@,
                y_stride: y_stride as int,
                uv_data: uv_data@,
                uv_stride: uv_stride as int,
                sub_h: sub_h as int,
                sub_v: sub_v as int,
                uv_first,
            },
            width as int,
            height as int,
        ),
        width * height * 3 <= old(dst)@.len(),
    ensures
        final(dst)@.len() == old(dst)@.len(),
        forall|k: int|
            0 <= k < width * height ==> #[trigger] rgb_of(final(dst)@, k) == nv_pixel(
                SemiPlanar {
                    y_data: y_data@,
                    y_stride: y_stride as int,
                    uv_data: uv_data@,
                    uv_stride: uv_stride as int,
                    sub_h: sub_h as int,
                    sub_v: sub_v as int,
                    uv_first,
                },
                color,
                bgr,
                k % (width as int),
                k / (width as int),
            ),
        forall|p: int|
            width * height * 3 <= p < old(dst)@.len() ==> #[trigger] final(dst)@[p] == old(dst)@[p],
{
    let ghost w = width as int;
    let ghost h = height as int;
    let ghost src = SemiPlanar {
        y_data: y_data@,
        y_stride: y_stride as int,
        uv_data: uv_data@,
        uv_stride: uv_stride as int,
        sub_h: sub_h as int,
        sub_v: sub_v as int,
        uv_first,
    };
    let n = dst.len();
    let ylen = y_data.len();
    let uvlen = uv_data.len();
    let mut y: usize = 0;
    let mut k: usize = 0;
    while y < height
        invariant
            y <= height,
            w == width,
            h == height,
            k == y * w,
            n == old(dst)@.len(),
            ylen == y_data@.len(),
            uvlen == uv_data@.len(),
            src == (SemiPlanar {
                y_data: y_data@,
                y_stride: y_stride as int,
                uv_data: uv_data@,
                uv_stride: uv_stride as int,
                sub_h: sub_h as int,
                sub_v: sub_v as int,
                uv_first,
            }),
            nv_readable(src, w, h),
            w * h * 3 <= old(dst)@.len(),
            dst@.len() == old(dst)@.len(),
            forall|j: int| 0 <= j < k ==> #[trigger] rgb_of(dst@, j) == nv_pixel(src, color, bgr, j % w, j / w),
            forall|p: int| 3 * k <= p < old(dst)@.len() ==> #[trigger] dst@[p] == old(dst)@[p],
        decreases height - y,
    {
        let mut x: usize = 0;
        while x < width
            invariant
                x <= width,
                y < height,
                w == width,
                h == height,
                k == y * w + x,
                n == old(dst)@.len(),
                ylen == y_data@.len(),
                uvlen == uv_data@.len(),
                src == (SemiPlanar {
                    y_data: y_data@,
                    y_stride: y_stride as int,
                    uv_data: uv_data@,
                    uv_stride: uv_stride as int,
                    sub_h: sub_h as int,
                    sub_v: sub_v as int,
                    uv_first,
                }),
                nv_readable(src, w, h),
                w * h * 3 <= old(dst)@.len(),
                dst@.len() == old(dst)@.len(),
                forall|j: int| 0 <= j < k ==> #[trigger] rgb_of(dst@, j) == nv_pixel(src, color, bgr, j % w, j / w),
                forall|p: int| 3 * k <= p < old(dst)@.len() ==> #[trigger] dst@[p] == old(dst)@[p],
            decreases width - x,
        {
            proof {
                lemma_pixel_index(k as int, x as int, y as int, w, h);
                lemma_nv_indices(src, w, h, x as int, y as int);
            }
            let c = (y / sub_v) * uv_stride + (x / sub_h) * 2;
            let yv = y_data[y * y_stride + x];
            let (u, v) = if uv_first {
                (uv_data[c], uv_data[c + 1])
            } else {
                (uv_data[c + 1], uv_data[c])
            };
            proof {
                lemma_bytes_fit(yv as int, u as int, v as int, color);
            }
            let (r, g, b) = yuv_to_rgb(yv as i32, u as i32, v as i32, color);
            let (c0, c1, c2) = if bgr {
                (b, g, r)
            } else {
                (r, g, b)
            };
            let ghost before = dst@;
            dst[3 * k] = c0;
            dst[3 * k + 1] = c1;
            dst[3 * k + 2] = c2;
            proof {
                assert forall|j: int| 0 <= j < k + 1 implies #[trigger] rgb_of(dst@, j) == nv_pixel(
                    src,
                    color,
                    bgr,
                    j % w,
                    j / w,
                ) by {
                    if j < k {
                        assert(rgb_of(before, j) == rgb_of(dst@, j));
                    }
                }
            }
            k = k + 1;
            x = x + 1;
        }
        assert(k == (y + 1) * w) by (nonlinear_arith)
            requires
                k == y * w + w,
        ;
        y = y + 1;
    }
    assert(k == w * h) by (nonlinear_arith)
        requires
            k == h * w,
    ;
}

/// The conversion library's checks on a luma plane of `len` bytes read
/// with pitch `stride` for a `width` by `height` frame: its sizes fit in
/// an index, the pitch covers a row, and the plane reaches the last row's
/// last pixel.
pub open spec fn lib_luma_ok(len: int, stride: int, width: int, height: int) -> bool {
    &&& stride * height <= usize::MAX
    &&& width * height <= usize::MAX
    &&& stride * height >= width * height
    &&& len >= stride * (height - 1) + width
}

/// The library's checks on an interleaved chroma plane of `len` bytes with
/// pitch `stride`, rows of `chroma_w` bytes and `chroma_h` rows: its sizes
/// fit in an index, and the plane holds exactly `chroma_h` rows, pitch and
/// row being the same.
pub open spec fn lib_interleaved_ok(len: int, stride: int, chroma_w: int, chroma_h: int) -> bool {
    &&& stride * chroma_h <= usize::MAX
    &&& chroma_w * chroma_h <= usize::MAX
    &&& stride * chroma_h >= chroma_w * chroma_h
    &&& len == stride * chroma_h
    &&& len == chroma_w * chroma_h
}

/// The library's checks on one chroma plane of a planar frame: its sizes
/// fit in an index, the pitch covers a row of `chroma_w` samples, and the
/// plane reaches the last row's last sample.
pub open spec fn lib_chroma_ok(len: int, stride: int, chroma_w: int, chroma_h: int) -> bool {
    &&& stride * chroma_h <= usize::MAX
    &&& chroma_w * chroma_h <= usize::MAX
    &&& stride * chroma_h >= chroma_w * chroma_h
    &&& len >= stride * (chroma_h - 1) + chroma_w
}

/// The library's checks on an RGB24 destination of `out_len` bytes with
/// rows `row_bytes` apart: the image's byte count fits in an index, the
/// pitch covers a row, and the buffer reaches the last row's last pixel.
pub open spec fn lib_rgb_ok(out_len: int, row_bytes: int, width: int, height: int) -> bool {
    &&& width * height <= usize::MAX
    &&& width * height * 3 <= usize::MAX
    &&& out_len >= row_bytes * (height - 1) + width * 3
    &&& row_bytes >= width * 3
}

/// A pitch the library can be handed: it fits in 32 bits, and twice it
/// still fits in an index (the library steps over two rows at once).
pub open spec fn lib_pitch_fits(p: int) -> bool {
    p <= u32::MAX && 2 * p <= usize::MAX
}

fn pitch_fits(p: usize) -> (r: bool)
    ensures
        r == lib_pitch_fits(p as int),
{
    p <= 0xFFFF_FFFF && p <= usize::MAX / 2
}

/// Every check the library makes before converting a semi-planar frame
/// whose chroma is subsampled `sub_h` by `sub_v`.
pub open spec fn biplanar_checks(
    y_len: int,
    y_stride: int,
    uv_len: int,
    uv_stride: int,
    width: int,
    height: int,
    out_len: int,
    row_bytes: int,
    sub_h: int,
    sub_v: int,
) -> bool {
    &&& lib_luma_ok(y_len, y_stride, width, height)
    &&& lib_interleaved_ok(uv_len, uv_stride, 2 * chroma_len(width, sub_h), chroma_len(height, sub_v))
    &&& lib_rgb_ok(out_len, row_bytes, width, height)
}

/// The library converts the `width` by `height` semi-planar frame `src`
/// into tightly packed RGB24, as a `lib_sub_h` by `lib_sub_v` subsampled
/// frame: the pitches can be handed to it and it accepts the sizes.
pub open spec fn biplanar_accepted(src: SemiPlanar, width: int, height: int, lib_sub_h: int, lib_sub_v: int) -> bool {
    &&& lib_pitch_fits(src.y_stride)
    &&& lib_pitch_fits(src.uv_stride)
    &&& lib_pitch_fits(3 * width)
    &&& biplanar_checks(
        src.y_data.len() as int,
        src.y_stride,
        src.uv_data.len() as int,
        src.uv_stride,
        width,
        height,
        3 * width * height,
        3 * width,
        lib_sub_h,
        lib_sub_v,
    )
}

/// Every check the library makes before converting a planar frame whose
/// chroma is subsampled `sub_h` by `sub_v`.
pub open spec fn planar_checks(
    y_len: int,
    y_stride: int,
    u_len: int,
    u_stride: int,
    v_len: int,
    v_stride: int,
    width: int,
    height: int,
    out_len: int,
    row_bytes: int,
    sub_h: int,
    sub_v: int,
) -> bool {
    &&& lib_rgb_ok(out_len, row_bytes, width, height)
    &&& lib_luma_ok(y_len, y_stride, width, height)
    &&& lib_chroma_ok(u_len, u_stride, chroma_len(width, sub_h), chroma_len(height, sub_v))
    &&& lib_chroma_ok(v_len, v_stride, chroma_len(width, sub_h), chroma_len(height, sub_v))
}

/// Calls `yuvutils_rs::yuv_nv12_to_rgb` on the `width` by `height` NV12
/// frame made of `y_data` and `uv_data` (rows `y_stride` and `uv_stride`
/// bytes apart), writing RGB24 rows `row_bytes` apart into the first
/// `out_len` bytes of `dst`, with the given range, matrix and path; tells
/// whether the library accepted the frame.
///
/// Claimed, from the library's source: it accepts exactly when its size
/// checks pass (`biplanar_checks` with chroma halved both ways); bytes of
/// `dst` from `out_len` on are untouched, and a refusal writes nothing.
/// The `requires` keeps out the inputs on which the library's row loops
/// would slice past a buffer: planes and output longer than their rows,
/// and pitches that a 32-bit cast would cut.  The values it writes when it
/// accepts are not stated: it picks SIMD code by CPU features at run time.
#[verifier::external_body]
pub(crate) fn nv12_to_rgb_lib(
    y_data: &[u8],
    y_stride: usize,
    uv_data: &[u8],
    uv_stride: usize,
    width: usize,
    height: usize,
    dst: &mut [u8],
    out_len: usize,
    row_bytes: usize,
    range: YuvRangeKind,
    matrix: YuvMatrixKind,
    mode: YuvModeKind,
) -> (ok: bool)
    requires
        out_len <= old(dst)@.len(),
        1 <= width < u32::MAX,
        1 <= height <= u32::MAX,
        out_len == row_bytes * height,
        y_data@.len() == y_stride * height,
        lib_pitch_fits(y_stride as int),
        lib_pitch_fits(uv_stride as int),
        lib_pitch_fits(row_bytes as int),
    ensures
        final(dst)@.len() == old(dst)@.len(),
        forall|p: int| out_len <= p < old(dst)@.len() ==> #[trigger] final(dst)@[p] == old(dst)@[p],
        !ok ==> final(dst)@ == old(dst)@,
        ok == biplanar_checks(y_data@.len() as int, y_stride as int, uv_data@.len() as int, uv_stride as int,
            width as int, height as int, out_len as int, row_bytes as int, 2, 2),
{
    let image = YuvBiPlanarImage { y_plane: y_data, y_stride: y_stride as u32, uv_plane: uv_data, uv_stride: uv_stride as u32, width: width as u32, height: height as u32 };
    let range = match range { YuvRangeKind::Limited => YuvRange::Limited, YuvRangeKind::Full => YuvRange::Full };
    let matrix = match matrix {
        YuvMatrixKind::Bt601 => YuvStandardMatrix::Bt601,
        YuvMatrixKind::Bt709 => YuvStandardMatrix::Bt709,
        YuvMatrixKind::Bt2020 => YuvStandardMatrix::Bt2020,
    };
    let mode = match mode { YuvModeKind::Fast => YuvConversionMode::Fast, YuvModeKind::Balanced => YuvConversionMode::Balanced };
    yuvutils_rs::yuv_nv12_to_rgb(&image, &mut dst[..out_len], row_bytes as u32, range, matrix, mode).is_ok()
}

/// Calls `yuvutils_rs::yuv_nv12_to_bgr`, as `nv12_to_rgb_lib` calls
/// `yuv_nv12_to_rgb`, with the same claims, writing BGR24: the two run the
/// same checks and row loops, and differ only in the channel order.
#[verifier::external_body]
fn nv12_to_bgr_lib(
    y_data: &[u8],
    y_stride: usize,
    uv_data: &[u8],
    uv_stride: usize,
    width: usize,
    height: usize,
    dst: &mut [u8],
    out_len: usize,
    row_bytes: usize,
    range: YuvRangeKind,
    matrix: YuvMatrixKind,
    mode: YuvModeKind,
) -> (ok: bool)
    requires
        out_len <= old(dst)@.len(),
        1 <= width < u32::MAX,
        1 <= height <= u32::MAX,
        out_len == row_bytes * height,
        y_data@.len() == y_stride * height,
        lib_pitch_fits(y_stride as int),
        lib_pitch_fits(uv_stride as int),
        lib_pitch_fits(row_bytes as int),
    ensures
        final(dst)@.len() == old(dst)@.len(),
        forall|p: int| out_len <= p < old(dst)@.len() ==> #[trigger] final(dst)@[p] == old(dst)@[p],
        !ok ==> final(dst)@ == old(dst)@,
        ok == biplanar_checks(y_data@.len() as int, y_stride as int, uv_data@.len() as int, uv_stride as int,
            width as int, height as int, out_len as int, row_bytes as int, 2, 2),
{
    let image = YuvBiPlanarImage { y_plane: y_data, y_stride: y_stride as u32, uv_plane: uv_data, uv_stride: uv_stride as u32, width: width as u32, height: height as u32 };
    let range = match range { YuvRangeKind::Limited => YuvRange::Limited, YuvRangeKind::Full => YuvRange::Full };
    let matrix = match matrix {
        YuvMatrixKind::Bt601 => YuvStandardMatrix::Bt601,
        YuvMatrixKind::Bt709 => YuvStandardMatrix::Bt709,
        YuvMatrixKind::Bt2020 => YuvStandardMatrix::Bt2020,
    };
    let mode = match mode { YuvModeKind::Fast => YuvConversionMode::Fast, YuvModeKind::Balanced => YuvConversionMode::Balanced };
    yuvutils_rs::yuv_nv12_to_bgr(&image, &mut dst[..out_len], row_bytes as u32, range, matrix, mode).is_ok()
}

/// The inputs on which an NV12 decode runs to completion once validation
/// passed: the conversion library's size arithmetic does not overflow,
/// and with a single plane the chroma rows hold a full row of chroma pairs
/// at the widened pitch.
pub open spec fn nv12_runs(meta: FrameMeta, planes: Seq<Plane>) -> bool {
    let w = meta.format.resolution.width@ as int;
    &&& w < u32::MAX
    &&& planes.len() == 1 ==> max_int(planes[0].pitch() as int, w) >= 2 * ((w + 1) / 2)
}

/// What an NV12 decode into RGB24 (or BGR24 where `bgr`) promises: the
/// failure and its message where validation fails, otherwise metadata of
/// the output code, nothing past `width * 3 * height` bytes touched, and,
/// wherever the conversion library does not convert the frame (its
/// pitches cannot be handed to it, or it refuses the sizes), the integer
/// conversion of every pixel of `nv12_source`.
pub open spec fn nv12_decoded(
    bgr: bool,
    meta: FrameMeta,
    planes: Seq<Plane>,
    before: Seq<u8>,
    after: Seq<u8>,
    r: Result<FrameMeta, CodecError>,
) -> bool {
    let out = if bgr { FourCc::BG24 } else { FourCc::RG24 };
    let w = meta.format.resolution.width@ as int;
    let h = meta.format.resolution.height@ as int;
    let src = nv12_source(meta, planes);
    if meta.format.code != FourCc::NV12 {
        &&& r matches Err(CodecError::FormatMismatch { expected, actual })
        &&& expected == FourCc::NV12 && actual == meta.format.code
        &&& after == before
    } else if nv12_failure(meta, planes, before.len() as int) is Some {
        &&& r matches Err(CodecError::Codec(s))
        &&& s@ == nv12_failure_text(nv12_failure(meta, planes, before.len() as int)->Some_0)@
        &&& after == before
    } else {
        &&& r matches Ok(m) && decoded_meta(m, meta, out)
        &&& after.len() == before.len()
        &&& !biplanar_accepted(src, w, h, 2, 2) ==> forall|k: int|
            0 <= k < w * h ==> #[trigger] rgb_of(after, k) == nv_pixel(src, meta.format.color, bgr, k % w, k / w)
        &&& forall|p: int| w * 3 * h <= p < before.len() ==> #[trigger] after[p] == before[p]
    }
}

/// The luma and chroma an NV12 decode hands to the conversion, with their
/// pitches, or the first thing wrong with the frame's planes.
fn nv12_planes<'a>(meta: &FrameMeta, planes: &Vec<Plane<'a>>) -> (r: Result<(&'a [u8], usize, &'a [u8], usize), Nv12Failure>)
    requires
        meta.format.resolution.width@ < usize::MAX,
    ensures
        match r {
            Ok((y_data, y_stride, uv_data, uv_stride)) => {
                let src = nv12_source(*meta, planes@);
                &&& nv12_plane_failure(*meta, planes@) is None
                &&& y_data@ == src.y_data
                &&& y_stride == src.y_stride
                &&& uv_data@ == src.uv_data
                &&& uv_stride == src.uv_stride
            },
            Err(f) => nv12_plane_failure(*meta, planes@) == Some(f),
        },
{
    let width = meta.format.resolution.width.get() as usize;
    let height = meta.format.resolution.height.get() as usize;
    let chroma_width = width / 2 + width % 2;
    let chroma_height = height / 2 + height % 2;
    if planes.len() >= 2 {
        let y_plane = planes[0];
        let uv_plane = planes[1];
        let y_stride = if y_plane.stride() >= width {
            y_plane.stride()
        } else {
            width
        };
        let uv_stride = if uv_plane.stride() >= chroma_width * 2 {
            uv_plane.stride()
        } else {
            chroma_width * 2
        };
        let y_required = match y_stride.checked_mul(height) {
            Some(n) => n,
            None => return Err(Nv12Failure::YStrideOverflow),
        };
        let uv_required = match uv_stride.checked_mul(chroma_height) {
            Some(n) => n,
            None => return Err(Nv12Failure::UvStrideOverflow),
        };
        if y_plane.data().len() < y_required || uv_plane.data().len() < uv_required {
            return Err(Nv12Failure::PlaneTooShort);
        }
        Ok((
            slice_subrange(y_plane.data(), 0, y_required),
            y_stride,
            slice_subrange(uv_plane.data(), 0, uv_required),
            uv_stride,
        ))
    } else if planes.len() == 1 {
        let plane = planes[0];
        let stride = if plane.stride() >= width {
            plane.stride()
        } else {
            width
        };
        let y_required = match stride.checked_mul(height) {
            Some(n) => n,
            None => return Err(Nv12Failure::YStrideOverflow),
        };
        let uv_required = match stride.checked_mul(chroma_height) {
            Some(n) => n,
            None => return Err(Nv12Failure::UvStrideOverflow),
        };
        let total_required = match y_required.checked_add(uv_required) {
            Some(n) => n,
            None => return Err(Nv12Failure::PlaneLengthOverflow),
        };
        if plane.data().len() < total_required {
            return Err(Nv12Failure::PackedPlaneTooShort);
        }
        let uv_stride = if stride >= chroma_width * 2 {
            stride
        } else {
            chroma_width * 2
        };
        Ok((
            slice_subrange(plane.data(), 0, y_required),
            stride,
            slice_subrange(plane.data(), y_required, total_required),
            uv_stride,
        ))
    } else {
        Err(Nv12Failure::MissingPlanes)
    }
}

/// NV12 decode into RGB24 (BGR24 where `bgr`), the conversion library
/// taking the given path.
pub(crate) fn decode_nv12(bgr: bool, mode: YuvModeKind, meta: &FrameMeta, planes: &Vec<Plane>, dst: &mut [u8]) -> (r: Result<FrameMeta, CodecError>)
    requires
        meta.format.code == FourCc::NV12 && nv12_failure(*meta, planes@, old(dst)@.len() as int) is None
            ==> nv12_runs(*meta, planes@),
        meta.format.resolution.width@ < usize::MAX,
    ensures
        nv12_decoded(bgr, *meta, planes@, old(dst)@, final(dst)@, r),
{
    let output = if bgr {
        FourCc::BG24
    } else {
        FourCc::RG24
    };
    if meta.format.code != FourCc::NV12 {
        return Err(CodecError::FormatMismatch { expected: FourCc::NV12, actual: meta.format.code });
    }
    let width = meta.format.resolution.width.get() as usize;
    let height = meta.format.resolution.height.get() as usize;
    let ghost w = width as int;
    let ghost h = height as int;
    let ghost src = nv12_source(*meta, planes@);
    let (y_data, y_stride, uv_data, uv_stride) = match nv12_planes(meta, planes) {
        Ok(p) => p,
        Err(f) => return Err(CodecError::Codec(nv12_failure_message(f))),
    };
    let row_bytes = match width.checked_mul(3) {
        Some(n) => n,
        None => {
            assert(width * 3 * height > usize::MAX) by (nonlinear_arith)
                requires
                    width * 3 > usize::MAX,
                    height >= 1,
            ;
            return Err(CodecError::Codec(nv12_failure_message(Nv12Failure::OutputOverflow)));
        },
    };
    let out_len = match row_bytes.checked_mul(height) {
        Some(n) => n,
        None => return Err(CodecError::Codec(nv12_failure_message(Nv12Failure::OutputOverflow))),
    };
    if dst.len() < out_len {
        return Err(CodecError::Codec(nv12_failure_message(Nv12Failure::DstTooShort)));
    }
    assert(width * height * 3 == out_len && 3 * width * height == out_len) by (nonlinear_arith)
        requires
            out_len == row_bytes * height,
            row_bytes == width * 3,
    ;
    let ghost cw = (w + 1) / 2;
    let ghost ch = (h + 1) / 2;
    proof {
        assert(y_data@.len() == y_stride * height);
        if planes@.len() >= 2 {
            assert(uv_data@.len() == uv_stride * ch);
        } else {
            assert(uv_stride == y_stride);
            assert(uv_data@.len() == uv_stride * ch);
        }
    }
    let color = meta.format.color;
    let (range, matrix) = map_colorspace(color);
    let ok = if pitch_fits(y_stride) && pitch_fits(uv_stride) && pitch_fits(row_bytes) {
        if bgr {
            nv12_to_bgr_lib(y_data, y_stride, uv_data, uv_stride, width, height, dst, out_len, row_bytes, range, matrix, mode)
        } else {
            nv12_to_rgb_lib(y_data, y_stride, uv_data, uv_stride, width, height, dst, out_len, row_bytes, range, matrix, mode)
        }
    } else {
        false
    };
    assert(ok == biplanar_accepted(src, w, h, 2, 2));
    if !ok {
        proof {
            assert(((h - 1) * y_stride + w <= y_stride * h)) by (nonlinear_arith)
                requires
                    h >= 1,
                    w <= y_stride,
            ;
            assert(((h - 1) / 2) * uv_stride + 2 * cw <= uv_data@.len()) by (nonlinear_arith)
                requires
                    h >= 1,
                    ch == (h + 1) / 2,
                    2 * cw <= uv_stride,
                    uv_data@.len() >= uv_stride * ch,
            {
                assert(((h - 1) / 2) * uv_stride + uv_stride <= ch * uv_stride);
            }
            assert(chroma_len(w, 2) == cw);
        }
        nv_to_rgb_fallback(y_data, y_stride, uv_data, uv_stride, width, height, 2, 2, true, color, bgr, dst);
        proof {
            assert(src == SemiPlanar {
                y_data: y_data@,
                y_stride: y_stride as int,
                uv_data: uv_data@,
                uv_stride: uv_stride as int,
                sub_h: 2,
                sub_v: 2,
                uv_first: true,
            });
        }
    }
    Ok(FrameMeta::new(MediaFormat::new(output, meta.format.resolution, meta.format.color), meta.timestamp))
}


/// Decode an NV12 frame (two planes, or one plane of luma rows followed by
/// chroma rows) into a caller-provided tightly packed RGB24 buffer.
pub fn decode_nv12_into(meta: &FrameMeta, planes: &Vec<Plane>, dst: &mut [u8]) -> (r: Result<FrameMeta, CodecError>)
    requires
        meta.format.code == FourCc::NV12 && nv12_failure(*meta, planes@, old(dst)@.len() as int) is None
            ==> nv12_runs(*meta, planes@),
        meta.format.resolution.width@ < usize::MAX,
    ensures
        nv12_decoded(false, *meta, planes@, old(dst)@, final(dst)@, r),
{
    decode_nv12(false, YuvModeKind::Balanced, meta, planes, dst)
}

/// Decode an NV12 frame into a caller-provided tightly packed BGR24 buffer.
pub fn decode_nv12_bgr_into(meta: &FrameMeta, planes: &Vec<Plane>, dst: &mut [u8]) -> (r: Result<FrameMeta, CodecError>)
    requires
        meta.format.code == FourCc::NV12 && nv12_failure(*meta, planes@, old(dst)@.len() as int) is None
            ==> nv12_runs(*meta, planes@),
        meta.format.resolution.width@ < usize::MAX,
    ensures
        nv12_decoded(true, *meta, planes@, old(dst)@, final(dst)@, r),
{
    decode_nv12(true, YuvModeKind::Balanced, meta, planes, dst)
}


/// Calls `yuvutils_rs::yuv_nv21_to_rgb` on the `width` by `height` frame made of
/// `y_data` and `uv_data` (rows `y_stride` and `uv_stride` bytes apart),
/// writing RGB24 rows `row_bytes` apart into the first `out_len` bytes of
/// `dst`, taking the given path; tells whether the library accepted the
/// frame (chroma halved both ways, each pair V then U).  Claimed, from the library's source: it
/// accepts exactly when its size checks pass (`biplanar_checks` at the
/// code's subsampling); bytes of `dst` from `out_len` on are untouched, and
/// a refusal writes nothing.  The `requires` keeps out the inputs on which
/// its row loops would slice past a buffer: a luma plane or output longer
/// than their rows, and pitches a 32-bit cast would cut.  The values
/// written on acceptance are not stated: the library picks SIMD code by
/// CPU features at run time.
#[verifier::external_body]
pub(crate) fn nv21_to_rgb_lib(
    y_data: &[u8],
    y_stride: usize,
    uv_data: &[u8],
    uv_stride: usize,
    width: usize,
    height: usize,
    dst: &mut [u8],
    out_len: usize,
    row_bytes: usize,
    range: YuvRangeKind,
    matrix: YuvMatrixKind,
    mode: YuvModeKind,
) -> (ok: bool)
    requires
        out_len <= old(dst)@.len(),
        1 <= width,
        2 * width <= u32::MAX,
        1 <= height <= u32::MAX,
        out_len == row_bytes * height,
        y_data@.len() == y_stride * height,
        lib_pitch_fits(y_stride as int),
        lib_pitch_fits(uv_stride as int),
        lib_pitch_fits(row_bytes as int),
    ensures
        final(dst)@.len() == old(dst)@.len(),
        forall|p: int| out_len <= p < old(dst)@.len() ==> #[trigger] final(dst)@[p] == old(dst)@[p],
        !ok ==> final(dst)@ == old(dst)@,
        ok == biplanar_checks(y_data@.len() as int, y_stride as int, uv_data@.len() as int, uv_stride as int,
            width as int, height as int, out_len as int, row_bytes as int, 2, 2),
{
    let image = YuvBiPlanarImage { y_plane: y_data, y_stride: y_stride as u32, uv_plane: uv_data, uv_stride: uv_stride as u32, width: width as u32, height: height as u32 };
    let range = match range { YuvRangeKind::Limited => YuvRange::Limited, YuvRangeKind::Full => YuvRange::Full };
    let matrix = match matrix {
        YuvMatrixKind::Bt601 => YuvStandardMatrix::Bt601,
        YuvMatrixKind::Bt709 => YuvStandardMatrix::Bt709,
        YuvMatrixKind::Bt2020 => YuvStandardMatrix::Bt2020,
    };
    let mode = match mode { YuvModeKind::Fast => YuvConversionMode::Fast, YuvModeKind::Balanced => YuvConversionMode::Balanced };
    yuvutils_rs::yuv_nv21_to_rgb(&image, &mut dst[..out_len], row_bytes as u32, range, matrix, mode).is_ok()
}

/// Calls `yuvutils_rs::yuv_nv16_to_rgb` on the `width` by `height` frame made of
/// `y_data` and `uv_data` (rows `y_stride` and `uv_stride` bytes apart),
/// writing RGB24 rows `row_bytes` apart into the first `out_len` bytes of
/// `dst`, taking the given path; tells whether the library accepted the
/// frame (chroma halved across).  Claimed, from the library's source: it
/// accepts exactly when its size checks pass (`biplanar_checks` at the
/// code's subsampling); bytes of `dst` from `out_len` on are untouched, and
/// a refusal writes nothing.  The `requires` keeps out the inputs on which
/// its row loops would slice past a buffer: a luma plane or output longer
/// than their rows, and pitches a 32-bit cast would cut.  The values
/// written on acceptance are not stated: the library picks SIMD code by
/// CPU features at run time.
#[verifier::external_body]
fn nv16_to_rgb_lib(
    y_data: &[u8],
    y_stride: usize,
    uv_data: &[u8],
    uv_stride: usize,
    width: usize,
    height: usize,
    dst: &mut [u8],
    out_len: usize,
    row_bytes: usize,
    range: YuvRangeKind,
    matrix: YuvMatrixKind,
    mode: YuvModeKind,
) -> (ok: bool)
    requires
        out_len <= old(dst)@.len(),
        1 <= width,
        2 * width <= u32::MAX,
        1 <= height <= u32::MAX,
        out_len == row_bytes * height,
        y_data@.len() == y_stride * height,
        lib_pitch_fits(y_stride as int),
        lib_pitch_fits(uv_stride as int),
        lib_pitch_fits(row_bytes as int),
    ensures
        final(dst)@.len() == old(dst)@.len(),
        forall|p: int| out_len <= p < old(dst)@.len() ==> #[trigger] final(dst)@[p] == old(dst)@[p],
        !ok ==> final(dst)@ == old(dst)@,
        ok == biplanar_checks(y_data@.len() as int, y_stride as int, uv_data@.len() as int, uv_stride as int,
            width as int, height as int, out_len as int, row_bytes as int, 2, 1),
{
    let image = YuvBiPlanarImage { y_plane: y_data, y_stride: y_stride as u32, uv_plane: uv_data, uv_stride: uv_stride as u32, width: width as u32, height: height as u32 };
    let range = match range { YuvRangeKind::Limited => YuvRange::Limited, YuvRangeKind::Full => YuvRange::Full };
    let matrix = match matrix {
        YuvMatrixKind::Bt601 => YuvStandardMatrix::Bt601,
        YuvMatrixKind::Bt709 => YuvStandardMatrix::Bt709,
        YuvMatrixKind::Bt2020 => YuvStandardMatrix::Bt2020,
    };
    let mode = match mode { YuvModeKind::Fast => YuvConversionMode::Fast, YuvModeKind::Balanced => YuvConversionMode::Balanced };
    yuvutils_rs::yuv_nv16_to_rgb(&image, &mut dst[..out_len], row_bytes as u32, range, matrix, mode).is_ok()
}

/// Calls `yuvutils_rs::yuv_nv61_to_rgb` on the `width` by `height` frame made of
/// `y_data` and `uv_data` (rows `y_stride` and `uv_stride` bytes apart),
/// writing RGB24 rows `row_bytes` apart into the first `out_len` bytes of
/// `dst`, taking the given path; tells whether the library accepted the
/// frame (chroma halved across, each pair V then U).  Claimed, from the library's source: it
/// accepts exactly when its size checks pass (`biplanar_checks` at the
/// code's subsampling); bytes of `dst` from `out_len` on are untouched, and
/// a refusal writes nothing.  The `requires` keeps out the inputs on which
/// its row loops would slice past a buffer: a luma plane or output longer
/// than their rows, and pitches a 32-bit cast would cut.  The values
/// written on acceptance are not stated: the library picks SIMD code by
/// CPU features at run time.
#[verifier::external_body]
fn nv61_to_rgb_lib(
    y_data: &[u8],
    y_stride: usize,
    uv_data: &[u8],
    uv_stride: usize,
    width: usize,
    height: usize,
    dst: &mut [u8],
    out_len: usize,
    row_bytes: usize,
    range: YuvRangeKind,
    matrix: YuvMatrixKind,
    mode: YuvModeKind,
) -> (ok: bool)
    requires
        out_len <= old(dst)@.len(),
        1 <= width,
        2 * width <= u32::MAX,
        1 <= height <= u32::MAX,
        out_len == row_bytes * height,
        y_data@.len() == y_stride * height,
        lib_pitch_fits(y_stride as int),
        lib_pitch_fits(uv_stride as int),
        lib_pitch_fits(row_bytes as int),
    ensures
        final(dst)@.len() == old(dst)@.len(),
        forall|p: int| out_len <= p < old(dst)@.len() ==> #[trigger] final(dst)@[p] == old(dst)@[p],
        !ok ==> final(dst)@ == old(dst)@,
        ok == biplanar_checks(y_data@.len() as int, y_stride as int, uv_data@.len() as int, uv_stride as int,
            width as int, height as int, out_len as int, row_bytes as int, 2, 1),
{
    let image = YuvBiPlanarImage { y_plane: y_data, y_stride: y_stride as u32, uv_plane: uv_data, uv_stride: uv_stride as u32, width: width as u32, height: height as u32 };
    let range = match range { YuvRangeKind::Limited => YuvRange::Limited, YuvRangeKind::Full => YuvRange::Full };
    let matrix = match matrix {
        YuvMatrixKind::Bt601 => YuvStandardMatrix::Bt601,
        YuvMatrixKind::Bt709 => YuvStandardMatrix::Bt709,
        YuvMatrixKind::Bt2020 => YuvStandardMatrix::Bt2020,
    };
    let mode = match mode { YuvModeKind::Fast => YuvConversionMode::Fast, YuvModeKind::Balanced => YuvConversionMode::Balanced };
    yuvutils_rs::yuv_nv61_to_rgb(&image, &mut dst[..out_len], row_bytes as u32, range, matrix, mode).is_ok()
}

/// Calls `yuvutils_rs::yuv_nv24_to_rgb` on the `width` by `height` frame made of
/// `y_data` and `uv_data` (rows `y_stride` and `uv_stride` bytes apart),
/// writing RGB24 rows `row_bytes` apart into the first `out_len` bytes of
/// `dst`, taking the given path; tells whether the library accepted the
/// frame (chroma at full resolution).  Claimed, from the library's source: it
/// accepts exactly when its size checks pass (`biplanar_checks` at the
/// code's subsampling); bytes of `dst` from `out_len` on are untouched, and
/// a refusal writes nothing.  The `requires` keeps out the inputs on which
/// its row loops would slice past a buffer: a luma plane or output longer
/// than their rows, and pitches a 32-bit cast would cut.  The values
/// written on acceptance are not stated: the library picks SIMD code by
/// CPU features at run time.
#[verifier::external_body]
fn nv24_to_rgb_lib(
    y_data: &[u8],
    y_stride: usize,
    uv_data: &[u8],
    uv_stride: usize,
    width: usize,
    height: usize,
    dst: &mut [u8],
    out_len: usize,
    row_bytes: usize,
    range: YuvRangeKind,
    matrix: YuvMatrixKind,
    mode: YuvModeKind,
) -> (ok: bool)
    requires
        out_len <= old(dst)@.len(),
        1 <= width,
        2 * width <= u32::MAX,
        1 <= height <= u32::MAX,
        out_len == row_bytes * height,
        y_data@.len() == y_stride * height,
        lib_pitch_fits(y_stride as int),
        lib_pitch_fits(uv_stride as int),
        lib_pitch_fits(row_bytes as int),
    ensures
        final(dst)@.len() == old(dst)@.len(),
        forall|p: int| out_len <= p < old(dst)@.len() ==> #[trigger] final(dst)@[p] == old(dst)@[p],
        !ok ==> final(dst)@ == old(dst)@,
        ok == biplanar_checks(y_data@.len() as int, y_stride as int, uv_data@.len() as int, uv_stride as int,
            width as int, height as int, out_len as int, row_bytes as int, 1, 1),
{
    let image = YuvBiPlanarImage { y_plane: y_data, y_stride: y_stride as u32, uv_plane: uv_data, uv_stride: uv_stride as u32, width: width as u32, height: height as u32 };
    let range = match range { YuvRangeKind::Limited => YuvRange::Limited, YuvRangeKind::Full => YuvRange::Full };
    let matrix = match matrix {
        YuvMatrixKind::Bt601 => YuvStandardMatrix::Bt601,
        YuvMatrixKind::Bt709 => YuvStandardMatrix::Bt709,
        YuvMatrixKind::Bt2020 => YuvStandardMatrix::Bt2020,
    };
    let mode = match mode { YuvModeKind::Fast => YuvConversionMode::Fast, YuvModeKind::Balanced => YuvConversionMode::Balanced };
    yuvutils_rs::yuv_nv24_to_rgb(&image, &mut dst[..out_len], row_bytes as u32, range, matrix, mode).is_ok()
}

/// Calls `yuvutils_rs::yuv_nv42_to_rgb` on the `width` by `height` frame made of
/// `y_data` and `uv_data` (rows `y_stride` and `uv_stride` bytes apart),
/// writing RGB24 rows `row_bytes` apart into the first `out_len` bytes of
/// `dst`, taking the given path; tells whether the library accepted the
/// frame (chroma at full resolution, each pair V then U).  Claimed, from the library's source: it
/// accepts exactly when its size checks pass (`biplanar_checks` at the
/// code's subsampling); bytes of `dst` from `out_len` on are untouched, and
/// a refusal writes nothing.  The `requires` keeps out the inputs on which
/// its row loops would slice past a buffer: a luma plane or output longer
/// than their rows, and pitches a 32-bit cast would cut.  The values
/// written on acceptance are not stated: the library picks SIMD code by
/// CPU features at run time.
#[verifier::external_body]
fn nv42_to_rgb_lib(
    y_data: &[u8],
    y_stride: usize,
    uv_data: &[u8],
    uv_stride: usize,
    width: usize,
    height: usize,
    dst: &mut [u8],
    out_len: usize,
    row_bytes: usize,
    range: YuvRangeKind,
    matrix: YuvMatrixKind,
    mode: YuvModeKind,
) -> (ok: bool)
    requires
        out_len <= old(dst)@.len(),
        1 <= width,
        2 * width <= u32::MAX,
        1 <= height <= u32::MAX,
        out_len == row_bytes * height,
        y_data@.len() == y_stride * height,
        lib_pitch_fits(y_stride as int),
        lib_pitch_fits(uv_stride as int),
        lib_pitch_fits(row_bytes as int),
    ensures
        final(dst)@.len() == old(dst)@.len(),
        forall|p: int| out_len <= p < old(dst)@.len() ==> #[trigger] final(dst)@[p] == old(dst)@[p],
        !ok ==> final(dst)@ == old(dst)@,
        ok == biplanar_checks(y_data@.len() as int, y_stride as int, uv_data@.len() as int, uv_stride as int,
            width as int, height as int, out_len as int, row_bytes as int, 1, 1),
{
    let image = YuvBiPlanarImage { y_plane: y_data, y_stride: y_stride as u32, uv_plane: uv_data, uv_stride: uv_stride as u32, width: width as u32, height: height as u32 };
    let range = match range { YuvRangeKind::Limited => YuvRange::Limited, YuvRangeKind::Full => YuvRange::Full };
    let matrix = match matrix {
        YuvMatrixKind::Bt601 => YuvStandardMatrix::Bt601,
        YuvMatrixKind::Bt709 => YuvStandardMatrix::Bt709,
        YuvMatrixKind::Bt2020 => YuvStandardMatrix::Bt2020,
    };
    let mode = match mode { YuvModeKind::Fast => YuvConversionMode::Fast, YuvModeKind::Balanced => YuvConversionMode::Balanced };
    yuvutils_rs::yuv_nv42_to_rgb(&image, &mut dst[..out_len], row_bytes as u32, range, matrix, mode).is_ok()
}

/// What a semi-planar decoder can find wrong with its input or output.
#[derive(Debug, Clone, Copy, PartialEq, Eq, Structural)]
pub enum NvFailure {
    MissingPlanes,
    YStrideOverflow,
    UvStrideOverflow,
    PlaneTooShort,
    OutputOverflow,
    DstTooShort,
}

/// The message a semi-planar decoder gives for each failure.
pub open spec fn nv_failure_text(f: NvFailure) -> &'static str {
    match f {
        NvFailure::MissingPlanes => "nv frame missing planes",
        NvFailure::YStrideOverflow => "nv y stride overflow",
        NvFailure::UvStrideOverflow => "nv uv stride overflow",
        NvFailure::PlaneTooShort => "nv plane buffer too short",
        NvFailure::OutputOverflow => "nv output overflow",
        NvFailure::DstTooShort => "nv dst buffer too short",
    }
}

fn nv_failure_message(f: NvFailure) -> (r: String)
    ensures
        r@ == nv_failure_text(f)@,
{
    let text: &str = match f {
        NvFailure::MissingPlanes => "nv frame missing planes",
        NvFailure::YStrideOverflow => "nv y stride overflow",
        NvFailure::UvStrideOverflow => "nv uv stride overflow",
        NvFailure::PlaneTooShort => "nv plane buffer too short",
        NvFailure::OutputOverflow => "nv output overflow",
        NvFailure::DstTooShort => "nv dst buffer too short",
    };
    text.to_owned()
}

/// The planes a semi-planar decode reads once validation passed: the first
/// `y_stride * height` luma bytes and the first `uv_stride * chroma rows`
/// chroma bytes, pitches widened to a row of pixels and of chroma pairs.
pub open spec fn nv_source(meta: FrameMeta, planes: Seq<Plane>, sub_h: int, sub_v: int, uv_first: bool) -> SemiPlanar {
    let w = meta.format.resolution.width@ as int;
    let h = meta.format.resolution.height@ as int;
    let ys = max_int(planes[0].pitch() as int, w);
    let uvs = max_int(planes[1].pitch() as int, chroma_len(w, sub_h) * 2);
    SemiPlanar {
        y_data: planes[0].bytes().subrange(0, ys * h),
        y_stride: ys,
        uv_data: planes[1].bytes().subrange(0, uvs * chroma_len(h, sub_v)),
        uv_stride: uvs,
        sub_h,
        sub_v,
        uv_first,
    }
}

/// The first thing wrong with a semi-planar decode whose input code
/// matched.
pub open spec fn nv_failure(meta: FrameMeta, planes: Seq<Plane>, sub_h: int, sub_v: int, dst_len: int) -> Option<NvFailure> {
    let w = meta.format.resolution.width@ as int;
    let h = meta.format.resolution.height@ as int;
    if nv_plane_failure(meta, planes, sub_h, sub_v) is Some {
        nv_plane_failure(meta, planes, sub_h, sub_v)
    } else if w * 3 * h > usize::MAX {
        Some(NvFailure::OutputOverflow)
    } else if dst_len < w * 3 * h {
        Some(NvFailure::DstTooShort)
    } else {
        None
    }
}

/// The first thing wrong with a semi-planar frame's planes: too few of
/// them, a plane size that overflows, or a plane too short for the frame.
pub open spec fn nv_plane_failure(meta: FrameMeta, planes: Seq<Plane>, sub_h: int, sub_v: int) -> Option<NvFailure> {
    let w = meta.format.resolution.width@ as int;
    let h = meta.format.resolution.height@ as int;
    if planes.len() < 2 {
        Some(NvFailure::MissingPlanes)
    } else {
        let ys = max_int(planes[0].pitch() as int, w);
        let uvs = max_int(planes[1].pitch() as int, chroma_len(w, sub_h) * 2);
        let ch = chroma_len(h, sub_v);
        if ys * h > usize::MAX {
            Some(NvFailure::YStrideOverflow)
        } else if uvs * ch > usize::MAX {
            Some(NvFailure::UvStrideOverflow)
        } else if planes[0].bytes().len() < ys * h || planes[1].bytes().len() < uvs * ch {
            Some(NvFailure::PlaneTooShort)
        } else {
            None
        }
    }
}

/// The luma and chroma a semi-planar decode hands to the conversion, with
/// their pitches, or the first thing wrong with the frame's planes.
fn nv_planes<'a>(meta: &FrameMeta, planes: &Vec<Plane<'a>>, sub_h: usize, sub_v: usize) -> (r: Result<(&'a [u8], usize, &'a [u8], usize), NvFailure>)
    requires
        sub_h >= 1,
        sub_v >= 1,
        2 * meta.format.resolution.width@ <= usize::MAX,
    ensures
        match r {
            Ok((y_data, y_stride, uv_data, uv_stride)) => {
                let src = nv_source(*meta, planes@, sub_h as int, sub_v as int, true);
                &&& nv_plane_failure(*meta, planes@, sub_h as int, sub_v as int) is None
                &&& y_data@ == src.y_data
                &&& y_stride == src.y_stride
                &&& uv_data@ == src.uv_data
                &&& uv_stride == src.uv_stride
            },
            Err(f) => nv_plane_failure(*meta, planes@, sub_h as int, sub_v as int) == Some(f),
        },
{
    if planes.len() < 2 {
        return Err(NvFailure::MissingPlanes);
    }
    let y_plane = planes[0];
    let uv_plane = planes[1];
    let width = meta.format.resolution.width.get() as usize;
    let height = meta.format.resolution.height.get() as usize;
    let chroma_width = chroma_count(width, sub_h);
    let chroma_height = chroma_count(height, sub_v);
    let y_stride = if y_plane.stride() >= width {
        y_plane.stride()
    } else {
        width
    };
    let uv_stride = if uv_plane.stride() >= chroma_width * 2 {
        uv_plane.stride()
    } else {
        chroma_width * 2
    };
    let y_required = match y_stride.checked_mul(height) {
        Some(n) => n,
        None => return Err(NvFailure::YStrideOverflow),
    };
    let uv_required = match uv_stride.checked_mul(chroma_height) {
        Some(n) => n,
        None => return Err(NvFailure::UvStrideOverflow),
    };
    if y_plane.data().len() < y_required || uv_plane.data().len() < uv_required {
        return Err(NvFailure::PlaneTooShort);
    }
    Ok((slice_subrange(y_plane.data(), 0, y_required), y_stride, slice_subrange(uv_plane.data(), 0, uv_required), uv_stride))
}

/// The codes for which the conversion library is tried first.
pub open spec fn nv_library_code(code: FourCc) -> bool {
    code == FourCc::NV21 || code@ == crate::format::CODE_NV16 || code@ == crate::format::CODE_NV61
        || code@ == crate::format::CODE_NV24 || code@ == crate::format::CODE_NV42
}

/// The chroma subsampling the conversion library converts a code's frames
/// at: halved both ways for NV21, halved across for NV16 and NV61, full
/// for NV24 and NV42.
pub open spec fn nv_library_subsampling(code: FourCc) -> (int, int) {
    if code == FourCc::NV21 {
        (2, 2)
    } else if code@ == crate::format::CODE_NV16 || code@ == crate::format::CODE_NV61 {
        (2, 1)
    } else {
        (1, 1)
    }
}

/// The conversion library converts a `code` frame read as `src`: it is
/// tried for the code and accepts the frame.
pub open spec fn nv_library_used(code: FourCc, src: SemiPlanar, width: int, height: int) -> bool {
    &&& nv_library_code(code)
    &&& biplanar_accepted(src, width, height, nv_library_subsampling(code).0, nv_library_subsampling(code).1)
}

fn chroma_count(n: usize, sub: usize) -> (r: usize)
    requires
        sub >= 1,
    ensures
        r == chroma_len(n as int, sub as int),
        r <= n,
{
    proof {
        vstd::arithmetic::div_mod::lemma_fundamental_div_mod(n as int, sub as int);
        vstd::arithmetic::div_mod::lemma_mod_bound(n as int, sub as int);
        assert(n / sub + (if n % sub == 0 { 0int } else { 1int }) <= n) by (nonlinear_arith)
            requires
                n == sub * (n / sub) + n % sub,
                0 <= n % sub < sub,
                sub >= 1,
        ;
    }
    n / sub + if n % sub == 0 {
        0
    } else {
        1
    }
}

proof fn lemma_chroma_rows(h: int, sub: int)
    requires
        h >= 1,
        sub >= 1,
    ensures
        (h - 1) / sub + 1 == chroma_len(h, sub),
{
    vstd::arithmetic::div_mod::lemma_fundamental_div_mod(h, sub);
    vstd::arithmetic::div_mod::lemma_mod_bound(h, sub);
    let q = h / sub;
    let r = h % sub;
    if r == 0 {
        assert(h - 1 == sub * (q - 1) + (sub - 1)) by (nonlinear_arith)
            requires
                h == sub * q + r,
                r == 0,
        ;
        vstd::arithmetic::div_mod::lemma_fundamental_div_mod_converse(h - 1, sub, q - 1, sub - 1);
        assert((q - 1) * sub == sub * (q - 1)) by (nonlinear_arith);
    } else {
        assert(h - 1 == q * sub + (r - 1)) by (nonlinear_arith)
            requires
                h == sub * q + r,
        ;
        vstd::arithmetic::div_mod::lemma_fundamental_div_mod_converse(h - 1, sub, q, r - 1);
    }
}

/// What a semi-planar decode into RGB24 promises: the mismatch where the
/// code is not `input`, the failure and its message where validation
/// fails, otherwise RGB24 metadata, nothing past `width * 3 * height` bytes
/// touched, and, wherever the conversion library does not convert the
/// frame (it is not tried for the code, its pitches cannot be handed to
/// it, or it refuses the sizes), the integer conversion of every pixel of
/// `nv_source`.
pub open spec fn nv_decoded(
    input: FourCc,
    uv_first: bool,
    sub_h: int,
    sub_v: int,
    meta: FrameMeta,
    planes: Seq<Plane>,
    before: Seq<u8>,
    after: Seq<u8>,
    r: Result<FrameMeta, CodecError>,
) -> bool {
    let w = meta.format.resolution.width@ as int;
    let h = meta.format.resolution.height@ as int;
    let failure = nv_failure(meta, planes, sub_h, sub_v, before.len() as int);
    let src = nv_source(meta, planes, sub_h, sub_v, uv_first);
    if meta.format.code != input {
        &&& r matches Err(CodecError::FormatMismatch { expected, actual })
        &&& expected == input && actual == meta.format.code
        &&& after == before
    } else if failure is Some {
        &&& r matches Err(CodecError::Codec(s))
        &&& s@ == nv_failure_text(failure->Some_0)@
        &&& after == before
    } else {
        &&& r matches Ok(m) && decoded_meta(m, meta, FourCc::RG24)
        &&& after.len() == before.len()
        &&& !nv_library_used(input, src, w, h) ==> forall|k: int|
            0 <= k < w * h ==> #[trigger] rgb_of(after, k) == nv_pixel(src, meta.format.color, false, k % w, k / w)
        &&& forall|p: int| w * 3 * h <= p < before.len() ==> #[trigger] after[p] == before[p]
    }
}

/// Decode a semi-planar YUV frame (a luma plane and an interleaved chroma
/// plane, chroma subsampled `sub_h` by `sub_v`) into a caller-provided
/// tightly packed RGB24 buffer: NV21, NV16, NV61, NV24 and NV42 through the
/// conversion library first, every code through the integer conversion
/// where the library is not used or refuses.
pub fn decode_nv_into(
    input: FourCc,
    uv_first: bool,
    sub_h: usize,
    sub_v: usize,
    meta: &FrameMeta,
    planes: &Vec<Plane>,
    dst: &mut [u8],
) -> (r: Result<FrameMeta, CodecError>)
    requires
        sub_h >= 1,
        sub_v >= 1,
        2 * meta.format.resolution.width@ <= usize::MAX,
        meta.format.code == input && nv_library_code(input) && nv_failure(
            *meta,
            planes@,
            sub_h as int,
            sub_v as int,
            old(dst)@.len() as int,
        ) is None ==> 2 * meta.format.resolution.width@ <= u32::MAX,
    ensures
        nv_decoded(input, uv_first, sub_h as int, sub_v as int, *meta, planes@, old(dst)@, final(dst)@, r),
{
    decode_nv(YuvModeKind::Balanced, input, uv_first, sub_h, sub_v, meta, planes, dst)
}

/// Semi-planar decode into RGB24, the conversion library taking the given
/// path.
pub(crate) fn decode_nv(
    mode: YuvModeKind,
    input: FourCc,
    uv_first: bool,
    sub_h: usize,
    sub_v: usize,
    meta: &FrameMeta,
    planes: &Vec<Plane>,
    dst: &mut [u8],
) -> (r: Result<FrameMeta, CodecError>)
    requires
        sub_h >= 1,
        sub_v >= 1,
        2 * meta.format.resolution.width@ <= usize::MAX,
        meta.format.code == input && nv_library_code(input) && nv_failure(
            *meta,
            planes@,
            sub_h as int,
            sub_v as int,
            old(dst)@.len() as int,
        ) is None ==> 2 * meta.format.resolution.width@ <= u32::MAX,
    ensures
        nv_decoded(input, uv_first, sub_h as int, sub_v as int, *meta, planes@, old(dst)@, final(dst)@, r),
{
    if meta.format.code != input {
        return Err(CodecError::FormatMismatch { expected: input, actual: meta.format.code });
    }
    let width = meta.format.resolution.width.get() as usize;
    let height = meta.format.resolution.height.get() as usize;
    let chroma_width = chroma_count(width, sub_h);
    let chroma_height = chroma_count(height, sub_v);
    let (y_data, y_stride, uv_data, uv_stride) = match nv_planes(meta, planes, sub_h, sub_v) {
        Ok(p) => p,
        Err(f) => return Err(CodecError::Codec(nv_failure_message(f))),
    };
    assert(y_data@.len() == y_stride * height && uv_data@.len() == uv_stride * chroma_height);
    let row_bytes = match width.checked_mul(3) {
        Some(n) => n,
        None => {
            assert(width * 3 * height > usize::MAX) by (nonlinear_arith)
                requires
                    width * 3 > usize::MAX,
                    height >= 1,
            ;
            return Err(CodecError::Codec(nv_failure_message(NvFailure::OutputOverflow)));
        },
    };
    let out_len = match row_bytes.checked_mul(height) {
        Some(n) => n,
        None => return Err(CodecError::Codec(nv_failure_message(NvFailure::OutputOverflow))),
    };
    if dst.len() < out_len {
        return Err(CodecError::Codec(nv_failure_message(NvFailure::DstTooShort)));
    }
    assert(width * height * 3 == out_len && 3 * width * height == out_len) by (nonlinear_arith)
        requires
            out_len == row_bytes * height,
            row_bytes == width * 3,
    ;
    let color = meta.format.color;
    let (range, matrix) = map_colorspace(color);
    let code = input.to_u32();
    let ghost src = nv_source(*meta, planes@, sub_h as int, sub_v as int, uv_first);
    let fits = pitch_fits(y_stride) && pitch_fits(uv_stride) && pitch_fits(row_bytes);
    let ok = if !fits {
        false
    } else if input == FourCc::NV21 {
        nv21_to_rgb_lib(y_data, y_stride, uv_data, uv_stride, width, height, dst, out_len, row_bytes, range, matrix, mode)
    } else if code == crate::format::CODE_NV16 {
        nv16_to_rgb_lib(y_data, y_stride, uv_data, uv_stride, width, height, dst, out_len, row_bytes, range, matrix, mode)
    } else if code == crate::format::CODE_NV61 {
        nv61_to_rgb_lib(y_data, y_stride, uv_data, uv_stride, width, height, dst, out_len, row_bytes, range, matrix, mode)
    } else if code == crate::format::CODE_NV24 {
        nv24_to_rgb_lib(y_data, y_stride, uv_data, uv_stride, width, height, dst, out_len, row_bytes, range, matrix, mode)
    } else if code == crate::format::CODE_NV42 {
        nv42_to_rgb_lib(y_data, y_stride, uv_data, uv_stride, width, height, dst, out_len, row_bytes, range, matrix, mode)
    } else {
        false
    };
    assert(ok == nv_library_used(input, src, width as int, height as int));
    if !ok {
        proof {
            let w = width as int;
            let h = height as int;
            assert(((h - 1) * y_stride + w <= y_stride * h)) by (nonlinear_arith)
                requires
                    h >= 1,
                    w <= y_stride,
            ;
            lemma_chroma_rows(h, sub_v as int);
            assert(((h - 1) / (sub_v as int)) * uv_stride + 2 * chroma_width <= uv_stride * chroma_height) by (nonlinear_arith)
                requires
                    (h - 1) / (sub_v as int) + 1 == chroma_height,
                    2 * chroma_width <= uv_stride,
            {
                assert(((h - 1) / (sub_v as int)) * uv_stride + uv_stride == chroma_height * uv_stride);
            }
        }
        nv_to_rgb_fallback(y_data, y_stride, uv_data, uv_stride, width, height, sub_h, sub_v, uv_first, color, false, dst);
    }
    Ok(FrameMeta::new(MediaFormat::new(FourCc::RG24, meta.format.resolution, meta.format.color), meta.timestamp))
}


/// Calls `yuvutils_rs::yuv420_to_rgb` on the `width` by `height` planar frame made of
/// `y_data`, `u_data` and `v_data` (rows `y_stride`, `u_stride` and
/// `v_stride` bytes apart), writing RGB24 rows `row_bytes` apart into the
/// first `out_len` bytes of `dst`; tells whether the library accepted the
/// frame.  Claimed, from the library's source: it accepts exactly when its
/// size checks pass (`planar_checks` at the function's subsampling); bytes
/// of `dst` from `out_len` on are untouched, and a refusal writes nothing.
/// The `requires` keeps out the inputs on which its row loops would slice
/// past a buffer or take a row that is not there: planes and output other
/// than whole rows, and pitches a 32-bit cast would cut.  The values
/// written on acceptance are not stated: the library picks SIMD code by CPU
/// features at run time.
#[verifier::external_body]
pub(crate) fn yuv420_to_rgb_lib(
    y_data: &[u8],
    y_stride: usize,
    u_data: &[u8],
    u_stride: usize,
    v_data: &[u8],
    v_stride: usize,
    width: usize,
    height: usize,
    dst: &mut [u8],
    out_len: usize,
    row_bytes: usize,
    range: YuvRangeKind,
    matrix: YuvMatrixKind,
) -> (ok: bool)
    requires
        out_len <= old(dst)@.len(),
        1 <= width <= u32::MAX,
        1 <= height <= u32::MAX,
        out_len == row_bytes * height,
        y_data@.len() == y_stride * height,
        lib_pitch_fits(y_stride as int),
        u_data@.len() == u_stride * chroma_len(height as int, 2),
        v_data@.len() == v_stride * chroma_len(height as int, 2),
        lib_pitch_fits(u_stride as int),
        lib_pitch_fits(v_stride as int),
        lib_pitch_fits(row_bytes as int),
    ensures
        final(dst)@.len() == old(dst)@.len(),
        forall|p: int| out_len <= p < old(dst)@.len() ==> #[trigger] final(dst)@[p] == old(dst)@[p],
        !ok ==> final(dst)@ == old(dst)@,
        ok == planar_checks(y_data@.len() as int, y_stride as int, u_data@.len() as int, u_stride as int,
            v_data@.len() as int, v_stride as int, width as int, height as int, out_len as int, row_bytes as int, 2, 2),
{
    let image = YuvPlanarImage { y_plane: y_data, y_stride: y_stride as u32, u_plane: u_data, u_stride: u_stride as u32, v_plane: v_data, v_stride: v_stride as u32, width: width as u32, height: height as u32 };
    let range = match range { YuvRangeKind::Limited => YuvRange::Limited, YuvRangeKind::Full => YuvRange::Full };
    let matrix = match matrix {
        YuvMatrixKind::Bt601 => YuvStandardMatrix::Bt601,
        YuvMatrixKind::Bt709 => YuvStandardMatrix::Bt709,
        YuvMatrixKind::Bt2020 => YuvStandardMatrix::Bt2020,
    };
    yuvutils_rs::yuv420_to_rgb(&image, &mut dst[..out_len], row_bytes as u32, range, matrix).is_ok()
}

/// Calls `yuvutils_rs::yuv422_to_rgb` on the `width` by `height` planar frame made of
/// `y_data`, `u_data` and `v_data` (rows `y_stride`, `u_stride` and
/// `v_stride` bytes apart), writing RGB24 rows `row_bytes` apart into the
/// first `out_len` bytes of `dst`; tells whether the library accepted the
/// frame.  Claimed, from the library's source: it accepts exactly when its
/// size checks pass (`planar_checks` at the function's subsampling); bytes
/// of `dst` from `out_len` on are untouched, and a refusal writes nothing.
/// The `requires` keeps out the inputs on which its row loops would slice
/// past a buffer or take a row that is not there: planes and output other
/// than whole rows, and pitches a 32-bit cast would cut.  The values
/// written on acceptance are not stated: the library picks SIMD code by CPU
/// features at run time.
#[verifier::external_body]
fn yuv422_to_rgb_lib(
    y_data: &[u8],
    y_stride: usize,
    u_data: &[u8],
    u_stride: usize,
    v_data: &[u8],
    v_stride: usize,
    width: usize,
    height: usize,
    dst: &mut [u8],
    out_len: usize,
    row_bytes: usize,
    range: YuvRangeKind,
    matrix: YuvMatrixKind,
) -> (ok: bool)
    requires
        out_len <= old(dst)@.len(),
        1 <= width <= u32::MAX,
        1 <= height <= u32::MAX,
        out_len == row_bytes * height,
        y_data@.len() == y_stride * height,
        lib_pitch_fits(y_stride as int),
        u_data@.len() == u_stride * chroma_len(height as int, 1),
        v_data@.len() == v_stride * chroma_len(height as int, 1),
        lib_pitch_fits(u_stride as int),
        lib_pitch_fits(v_stride as int),
        lib_pitch_fits(row_bytes as int),
    ensures
        final(dst)@.len() == old(dst)@.len(),
        forall|p: int| out_len <= p < old(dst)@.len() ==> #[trigger] final(dst)@[p] == old(dst)@[p],
        !ok ==> final(dst)@ == old(dst)@,
        ok == planar_checks(y_data@.len() as int, y_stride as int, u_data@.len() as int, u_stride as int,
            v_data@.len() as int, v_stride as int, width as int, height as int, out_len as int, row_bytes as int, 2, 1),
{
    let image = YuvPlanarImage { y_plane: y_data, y_stride: y_stride as u32, u_plane: u_data, u_stride: u_stride as u32, v_plane: v_data, v_stride: v_stride as u32, width: width as u32, height: height as u32 };
    let range = match range { YuvRangeKind::Limited => YuvRange::Limited, YuvRangeKind::Full => YuvRange::Full };
    let matrix = match matrix {
        YuvMatrixKind::Bt601 => YuvStandardMatrix::Bt601,
        YuvMatrixKind::Bt709 => YuvStandardMatrix::Bt709,
        YuvMatrixKind::Bt2020 => YuvStandardMatrix::Bt2020,
    };
    yuvutils_rs::yuv422_to_rgb(&image, &mut dst[..out_len], row_bytes as u32, range, matrix).is_ok()
}

/// Calls `yuvutils_rs::yuv444_to_rgb` on the `width` by `height` planar frame made of
/// `y_data`, `u_data` and `v_data` (rows `y_stride`, `u_stride` and
/// `v_stride` bytes apart), writing RGB24 rows `row_bytes` apart into the
/// first `out_len` bytes of `dst`; tells whether the library accepted the
/// frame.  Claimed, from the library's source: it accepts exactly when its
/// size checks pass (`planar_checks` at the function's subsampling); bytes
/// of `dst` from `out_len` on are untouched, and a refusal writes nothing.
/// The `requires` keeps out the inputs on which its row loops would slice
/// past a buffer or take a row that is not there: planes and output other
/// than whole rows, and pitches a 32-bit cast would cut.  The values
/// written on acceptance are not stated: the library picks SIMD code by CPU
/// features at run time.
#[verifier::external_body]
fn yuv444_to_rgb_lib(
    y_data: &[u8],
    y_stride: usize,
    u_data: &[u8],
    u_stride: usize,
    v_data: &[u8],
    v_stride: usize,
    width: usize,
    height: usize,
    dst: &mut [u8],
    out_len: usize,
    row_bytes: usize,
    range: YuvRangeKind,
    matrix: YuvMatrixKind,
) -> (ok: bool)
    requires
        out_len <= old(dst)@.len(),
        1 <= width <= u32::MAX,
        1 <= height <= u32::MAX,
        out_len == row_bytes * height,
        y_data@.len() == y_stride * height,
        lib_pitch_fits(y_stride as int),
        u_data@.len() == u_stride * chroma_len(height as int, 1),
        v_data@.len() == v_stride * chroma_len(height as int, 1),
        lib_pitch_fits(u_stride as int),
        lib_pitch_fits(v_stride as int),
        lib_pitch_fits(row_bytes as int),
    ensures
        final(dst)@.len() == old(dst)@.len(),
        forall|p: int| out_len <= p < old(dst)@.len() ==> #[trigger] final(dst)@[p] == old(dst)@[p],
        !ok ==> final(dst)@ == old(dst)@,
        ok == planar_checks(y_data@.len() as int, y_stride as int, u_data@.len() as int, u_stride as int,
            v_data@.len() as int, v_stride as int, width as int, height as int, out_len as int, row_bytes as int, 1, 1),
{
    let image = YuvPlanarImage { y_plane: y_data, y_stride: y_stride as u32, u_plane: u_data, u_stride: u_stride as u32, v_plane: v_data, v_stride: v_stride as u32, width: width as u32, height: height as u32 };
    let range = match range { YuvRangeKind::Limited => YuvRange::Limited, YuvRangeKind::Full => YuvRange::Full };
    let matrix = match matrix {
        YuvMatrixKind::Bt601 => YuvStandardMatrix::Bt601,
        YuvMatrixKind::Bt709 => YuvStandardMatrix::Bt709,
        YuvMatrixKind::Bt2020 => YuvStandardMatrix::Bt2020,
    };
    yuvutils_rs::yuv444_to_rgb(&image, &mut dst[..out_len], row_bytes as u32, range, matrix).is_ok()
}

/// Where a planar YUV frame's planes lie and how they are sampled.
pub struct Planar {
    pub y_data: Seq<u8>,
    pub y_stride: int,
    pub u_data: Seq<u8>,
    pub u_stride: int,
    pub v_data: Seq<u8>,
    pub v_stride: int,
    pub sub_h: int,
    pub sub_v: int,
}

/// RGB of pixel `(x, y)` of a planar frame: its own luma with the U and V
/// samples of its subsampling block.
pub open spec fn planar_pixel(src: Planar, color: ColorSpace, x: int, y: int) -> (u8, u8, u8) {
    let cx = x / src.sub_h;
    let cy = y / src.sub_v;
    yuv_rgb(
        src.y_data[y * src.y_stride + x] as int,
        src.u_data[cy * src.u_stride + cx] as int,
        src.v_data[cy * src.v_stride + cx] as int,
        color,
    )
}

/// The planes hold every byte the integer conversion reads for a `width`
/// by `height` frame.
pub open spec fn planar_readable(src: Planar, width: int, height: int) -> bool {
    &&& src.sub_h >= 1
    &&& src.sub_v >= 1
    &&& 0 <= src.u_stride
    &&& 0 <= src.v_stride
    &&& width <= src.y_stride
    &&& (height - 1) * src.y_stride + width <= src.y_data.len()
    &&& ((height - 1) / src.sub_v) * src.u_stride + chroma_len(width, src.sub_h) <= src.u_data.len()
    &&& ((height - 1) / src.sub_v) * src.v_stride + chroma_len(width, src.sub_h) <= src.v_data.len()
}

proof fn lemma_planar_indices(src: Planar, width: int, height: int, x: int, y: int)
    requires
        planar_readable(src, width, height),
        0 <= x < width,
        0 <= y < height,
    ensures
        0 <= y * src.y_stride + x < src.y_data.len(),
        0 <= (y / src.sub_v) * src.u_stride + x / src.sub_h < src.u_data.len(),
        0 <= (y / src.sub_v) * src.v_stride + x / src.sub_h < src.v_data.len(),
{
    let ys = src.y_stride;
    assert(0 <= y * ys <= (height - 1) * ys) by (nonlinear_arith)
        requires
            0 <= y <= height - 1,
            0 <= ys,
    ;
    vstd::arithmetic::div_mod::lemma_div_is_ordered(y, height - 1, src.sub_v);
    vstd::arithmetic::div_mod::lemma_div_pos_is_pos(y, src.sub_v);
    let yq = y / src.sub_v;
    let hq = (height - 1) / src.sub_v;
    let us = src.u_stride;
    let vs = src.v_stride;
    assert(0 <= yq * us <= hq * us) by (nonlinear_arith)
        requires
            0 <= yq <= hq,
            0 <= us,
    ;
    assert(0 <= yq * vs <= hq * vs) by (nonlinear_arith)
        requires
            0 <= yq <= hq,
            0 <= vs,
    ;
    lemma_chroma_index(x, width, src.sub_h);
}

/// Convert a planar YUV frame to tightly packed RGB24 with the integer
/// conversion, pixel by pixel.
pub fn planar_to_rgb_fallback(
    y_data: &[u8],
    y_stride: usize,
    u_data: &[u8],
    u_stride: usize,
    v_data: &[u8],
    v_stride: usize,
    width: usize,
    height: usize,
    sub_h: usize,
    sub_v: usize,
    color: ColorSpace,
    dst: &mut [u8],
)
    requires
        width >= 1,
        height >= 1,
        planar_readable(
            Planar {
                y_data: y_data@,
                y_stride: y_stride as int,
                u_data: u_data@,
                u_stride: u_stride as int,
                v_data: v_data@,
                v_stride: v_stride as int,
                sub_h: sub_h as int,
                sub_v: sub_v as int,
            },
            width as int,
            height as int,
        ),
        width * height * 3 <= old(dst)@.len(),
    ensures
        final(dst)@.len() == old(dst)@.len(),
        forall|k: int|
            0 <= k < width * height ==> #[trigger] rgb_of(final(dst)@, k) == planar_pixel(
                Planar {
                    y_data: y_data@,
                    y_stride: y_stride as int,
                    u_data: u_data@,
                    u_stride: u_stride as int,
                    v_data: v_data@,
                    v_stride: v_stride as int,
                    sub_h: sub_h as int,
                    sub_v: sub_v as int,
                },
                color,
                k % (width as int),
                k / (width as int),
            ),
        forall|p: int|
            width * height * 3 <= p < old(dst)@.len() ==> #[trigger] final(dst)@[p] == old(dst)@[p],
{
    let ghost w = width as int;
    let ghost h = height as int;
    let ghost src = Planar {
        y_data: y_data@,
        y_stride: y_stride as int,
        u_data: u_data@,
        u_stride: u_stride as int,
        v_data: v_data@,
        v_stride: v_stride as int,
        sub_h: sub_h as int,
        sub_v: sub_v as int,
    };
    let n = dst.len();
    let ylen = y_data.len();
    let ulen = u_data.len();
    let vlen = v_data.len();
    let mut y: usize = 0;
    let mut k: usize = 0;
    while y < height
        invariant
            y <= height,
            w == width,
            h == height,
            k == y * w,
            n == old(dst)@.len(),
            ylen == y_data@.len(),
            ulen == u_data@.len(),
            vlen == v_data@.len(),
            src == (Planar {
                y_data: y_data@,
                y_stride: y_stride as int,
                u_data: u_data@,
                u_stride: u_stride as int,
                v_data: v_data@,
                v_stride: v_stride as int,
                sub_h: sub_h as int,
                sub_v: sub_v as int,
            }),
            planar_readable(src, w, h),
            w * h * 3 <= old(dst)@.len(),
            dst@.len() == old(dst)@.len(),
            forall|j: int| 0 <= j < k ==> #[trigger] rgb_of(dst@, j) == planar_pixel(src, color, j % w, j / w),
            forall|p: int| 3 * k <= p < old(dst)@.len() ==> #[trigger] dst@[p] == old(dst)@[p],
        decreases height - y,
    {
        let mut x: usize = 0;
        while x < width
            invariant
                x <= width,
                y < height,
                w == width,
                h == height,
                k == y * w + x,
                n == old(dst)@.len(),
                ylen == y_data@.len(),
                ulen == u_data@.len(),
                vlen == v_data@.len(),
                src == (Planar {
                    y_data: y_data@,
                    y_stride: y_stride as int,
                    u_data: u_data@,
                    u_stride: u_stride as int,
                    v_data: v_data@,
                    v_stride: v_stride as int,
                    sub_h: sub_h as int,
                    sub_v: sub_v as int,
                }),
                planar_readable(src, w, h),
                w * h * 3 <= old(dst)@.len(),
                dst@.len() == old(dst)@.len(),
                forall|j: int| 0 <= j < k ==> #[trigger] rgb_of(dst@, j) == planar_pixel(src, color, j % w, j / w),
                forall|p: int| 3 * k <= p < old(dst)@.len() ==> #[trigger] dst@[p] == old(dst)@[p],
            decreases width - x,
        {
            proof {
                lemma_pixel_index(k as int, x as int, y as int, w, h);
                lemma_planar_indices(src, w, h, x as int, y as int);
            }
            let cx = x / sub_h;
            let cy = y / sub_v;
            let yv = y_data[y * y_stride + x];
            let u = u_data[cy * u_stride + cx];
            let v = v_data[cy * v_stride + cx];
            proof {
                lemma_bytes_fit(yv as int, u as int, v as int, color);
            }
            let (r, g, b) = yuv_to_rgb(yv as i32, u as i32, v as i32, color);
            let ghost before = dst@;
            dst[3 * k] = r;
            dst[3 * k + 1] = g;
            dst[3 * k + 2] = b;
            proof {
                assert forall|j: int| 0 <= j < k + 1 implies #[trigger] rgb_of(dst@, j) == planar_pixel(
                    src,
                    color,
                    j % w,
                    j / w,
                ) by {
                    if j < k {
                        assert(rgb_of(before, j) == rgb_of(dst@, j));
                    }
                }
            }
            k = k + 1;
            x = x + 1;
        }
        assert(k == (y + 1) * w) by (nonlinear_arith)
            requires
                k == y * w + w,
        ;
        y = y + 1;
    }
    assert(k == w * h) by (nonlinear_arith)
        requires
            k == h * w,
    ;
}

/// What a planar decoder can find wrong with its input or output.
#[derive(Debug, Clone, Copy, PartialEq, Eq, Structural)]
pub enum PlanarFailure {
    MissingPlanes,
    YStrideOverflow,
    UStrideOverflow,
    VStrideOverflow,
    PlaneTooShort,
    OutputOverflow,
    DstTooShort,
}

/// The message a planar decoder (the I420 one where `i420`) gives for each
/// failure.
pub open spec fn planar_failure_text(i420: bool, f: PlanarFailure) -> &'static str {
    if i420 {
        match f {
            PlanarFailure::MissingPlanes => "i420 frame missing planes",
            PlanarFailure::YStrideOverflow => "i420 y stride overflow",
            PlanarFailure::UStrideOverflow => "i420 u stride overflow",
            PlanarFailure::VStrideOverflow => "i420 v stride overflow",
            PlanarFailure::PlaneTooShort => "i420 plane buffer too short",
            PlanarFailure::OutputOverflow => "i420 output overflow",
            PlanarFailure::DstTooShort => "i420 dst buffer too short",
        }
    } else {
        match f {
            PlanarFailure::MissingPlanes => "planar yuv frame missing planes",
            PlanarFailure::YStrideOverflow => "planar yuv y stride overflow",
            PlanarFailure::UStrideOverflow => "planar yuv u stride overflow",
            PlanarFailure::VStrideOverflow => "planar yuv v stride overflow",
            PlanarFailure::PlaneTooShort => "planar yuv plane buffer too short",
            PlanarFailure::OutputOverflow => "planar yuv output overflow",
            PlanarFailure::DstTooShort => "planar yuv dst buffer too short",
        }
    }
}

fn planar_failure_message(i420: bool, f: PlanarFailure) -> (r: String)
    ensures
        r@ == planar_failure_text(i420, f)@,
{
    let text: &str = if i420 {
        match f {
            PlanarFailure::MissingPlanes => "i420 frame missing planes",
            PlanarFailure::YStrideOverflow => "i420 y stride overflow",
            PlanarFailure::UStrideOverflow => "i420 u stride overflow",
            PlanarFailure::VStrideOverflow => "i420 v stride overflow",
            PlanarFailure::PlaneTooShort => "i420 plane buffer too short",
            PlanarFailure::OutputOverflow => "i420 output overflow",
            PlanarFailure::DstTooShort => "i420 dst buffer too short",
        }
    } else {
        match f {
            PlanarFailure::MissingPlanes => "planar yuv frame missing planes",
            PlanarFailure::YStrideOverflow => "planar yuv y stride overflow",
            PlanarFailure::UStrideOverflow => "planar yuv u stride overflow",
            PlanarFailure::VStrideOverflow => "planar yuv v stride overflow",
            PlanarFailure::PlaneTooShort => "planar yuv plane buffer too short",
            PlanarFailure::OutputOverflow => "planar yuv output overflow",
            PlanarFailure::DstTooShort => "planar yuv dst buffer too short",
        }
    };
    text.to_owned()
}

/// Index of the U plane, then of the V plane, among a frame's planes.
pub open spec fn chroma_planes(u_first: bool) -> (int, int) {
    if u_first {
        (1, 2)
    } else {
        (2, 1)
    }
}

/// The planes a planar decode reads once validation passed: the first
/// `stride * rows` bytes of each, pitches widened to a row of samples.
pub open spec fn planar_source(meta: FrameMeta, planes: Seq<Plane>, sub_h: int, sub_v: int, u_first: bool) -> Planar {
    let w = meta.format.resolution.width@ as int;
    let h = meta.format.resolution.height@ as int;
    let cw = chroma_len(w, sub_h);
    let ch = chroma_len(h, sub_v);
    let (ui, vi) = chroma_planes(u_first);
    let ys = max_int(planes[0].pitch() as int, w);
    let us = max_int(planes[ui].pitch() as int, cw);
    let vs = max_int(planes[vi].pitch() as int, cw);
    Planar {
        y_data: planes[0].bytes().subrange(0, ys * h),
        y_stride: ys,
        u_data: planes[ui].bytes().subrange(0, us * ch),
        u_stride: us,
        v_data: planes[vi].bytes().subrange(0, vs * ch),
        v_stride: vs,
        sub_h,
        sub_v,
    }
}

/// The first thing wrong with a planar decode whose input code matched.
pub open spec fn planar_failure(meta: FrameMeta, planes: Seq<Plane>, sub_h: int, sub_v: int, u_first: bool, dst_len: int) -> Option<PlanarFailure> {
    let w = meta.format.resolution.width@ as int;
    let h = meta.format.resolution.height@ as int;
    if planar_plane_failure(meta, planes, sub_h, sub_v, u_first) is Some {
        planar_plane_failure(meta, planes, sub_h, sub_v, u_first)
    } else if w * 3 * h > usize::MAX {
        Some(PlanarFailure::OutputOverflow)
    } else if dst_len < w * 3 * h {
        Some(PlanarFailure::DstTooShort)
    } else {
        None
    }
}

/// The first thing wrong with a planar frame's planes: too few of them, a
/// plane size that overflows, or a plane too short for the frame.
pub open spec fn planar_plane_failure(meta: FrameMeta, planes: Seq<Plane>, sub_h: int, sub_v: int, u_first: bool) -> Option<PlanarFailure> {
    let w = meta.format.resolution.width@ as int;
    let h = meta.format.resolution.height@ as int;
    if planes.len() < 3 {
        Some(PlanarFailure::MissingPlanes)
    } else {
        let cw = chroma_len(w, sub_h);
        let ch = chroma_len(h, sub_v);
        let (ui, vi) = chroma_planes(u_first);
        let ys = max_int(planes[0].pitch() as int, w);
        let us = max_int(planes[ui].pitch() as int, cw);
        let vs = max_int(planes[vi].pitch() as int, cw);
        if ys * h > usize::MAX {
            Some(PlanarFailure::YStrideOverflow)
        } else if us * ch > usize::MAX {
            Some(PlanarFailure::UStrideOverflow)
        } else if vs * ch > usize::MAX {
            Some(PlanarFailure::VStrideOverflow)
        } else if planes[0].bytes().len() < ys * h || planes[ui].bytes().len() < us * ch
            || planes[vi].bytes().len() < vs * ch {
            Some(PlanarFailure::PlaneTooShort)
        } else {
            None
        }
    }
}

/// The luma, U and V planes a planar decode hands to the conversion, with
/// their pitches, or the first thing wrong with the frame's planes.
fn planar_planes<'a>(meta: &FrameMeta, planes: &Vec<Plane<'a>>, sub_h: usize, sub_v: usize, u_first: bool) -> (r: Result<(&'a [u8], usize, &'a [u8], usize, &'a [u8], usize), PlanarFailure>)
    requires
        sub_h >= 1,
        sub_v >= 1,
    ensures
        match r {
            Ok((y_data, y_stride, u_data, u_stride, v_data, v_stride)) => {
                let src = planar_source(*meta, planes@, sub_h as int, sub_v as int, u_first);
                &&& planar_plane_failure(*meta, planes@, sub_h as int, sub_v as int, u_first) is None
                &&& y_data@ == src.y_data
                &&& y_stride == src.y_stride
                &&& u_data@ == src.u_data
                &&& u_stride == src.u_stride
                &&& v_data@ == src.v_data
                &&& v_stride == src.v_stride
            },
            Err(f) => planar_plane_failure(*meta, planes@, sub_h as int, sub_v as int, u_first) == Some(f),
        },
{
    if planes.len() < 3 {
        return Err(PlanarFailure::MissingPlanes);
    }
    let y_plane = planes[0];
    let (u_plane, v_plane) = if u_first {
        (planes[1], planes[2])
    } else {
        (planes[2], planes[1])
    };
    let width = meta.format.resolution.width.get() as usize;
    let height = meta.format.resolution.height.get() as usize;
    let chroma_width = chroma_count(width, sub_h);
    let chroma_height = chroma_count(height, sub_v);
    let y_stride = if y_plane.stride() >= width {
        y_plane.stride()
    } else {
        width
    };
    let u_stride = if u_plane.stride() >= chroma_width {
        u_plane.stride()
    } else {
        chroma_width
    };
    let v_stride = if v_plane.stride() >= chroma_width {
        v_plane.stride()
    } else {
        chroma_width
    };
    let y_required = match y_stride.checked_mul(height) {
        Some(n) => n,
        None => return Err(PlanarFailure::YStrideOverflow),
    };
    let u_required = match u_stride.checked_mul(chroma_height) {
        Some(n) => n,
        None => return Err(PlanarFailure::UStrideOverflow),
    };
    let v_required = match v_stride.checked_mul(chroma_height) {
        Some(n) => n,
        None => return Err(PlanarFailure::VStrideOverflow),
    };
    if y_plane.data().len() < y_required || u_plane.data().len() < u_required || v_plane.data().len()
        < v_required {
        return Err(PlanarFailure::PlaneTooShort);
    }
    Ok((
        slice_subrange(y_plane.data(), 0, y_required),
        y_stride,
        slice_subrange(u_plane.data(), 0, u_required),
        u_stride,
        slice_subrange(v_plane.data(), 0, v_required),
        v_stride,
    ))
}

/// Subsamplings the conversion library converts.
pub open spec fn planar_library_subsampling(sub_h: int, sub_v: int) -> bool {
    (sub_h == 2 && sub_v == 2) || (sub_h == 2 && sub_v == 1) || (sub_h == 1 && sub_v == 1)
}

/// The conversion library converts the `width` by `height` planar frame
/// `src` into tightly packed RGB24: it is tried for the frame's
/// subsampling, the pitches can be handed to it, and it accepts the sizes.
pub open spec fn planar_library_used(src: Planar, width: int, height: int) -> bool {
    &&& planar_library_subsampling(src.sub_h, src.sub_v)
    &&& lib_pitch_fits(src.y_stride)
    &&& lib_pitch_fits(src.u_stride)
    &&& lib_pitch_fits(src.v_stride)
    &&& lib_pitch_fits(3 * width)
    &&& planar_checks(
        src.y_data.len() as int,
        src.y_stride,
        src.u_data.len() as int,
        src.u_stride,
        src.v_data.len() as int,
        src.v_stride,
        width,
        height,
        3 * width * height,
        3 * width,
        src.sub_h,
        src.sub_v,
    )
}

/// What a planar decode promises: the failure and its message (in the
/// I420 decoder's words where `i420`) where validation fails, otherwise
/// metadata of the output code, nothing past `width * 3 * height` bytes
/// touched, and, wherever the conversion library does not convert the
/// frame (it is not tried for the subsampling, its pitches cannot be
/// handed to it, or it refuses the sizes), the integer conversion of
/// every pixel of `planar_source`.
pub open spec fn planar_decoded(
    i420: bool,
    input: FourCc,
    u_first: bool,
    sub_h: int,
    sub_v: int,
    meta: FrameMeta,
    planes: Seq<Plane>,
    before: Seq<u8>,
    after: Seq<u8>,
    r: Result<FrameMeta, CodecError>,
) -> bool {
    let w = meta.format.resolution.width@ as int;
    let h = meta.format.resolution.height@ as int;
    let failure = planar_failure(meta, planes, sub_h, sub_v, u_first, before.len() as int);
    if meta.format.code != input {
        &&& r matches Err(CodecError::FormatMismatch { expected, actual })
        &&& expected == input && actual == meta.format.code
        &&& after == before
    } else if failure is Some {
        &&& r matches Err(CodecError::Codec(s))
        &&& s@ == planar_failure_text(i420, failure->Some_0)@
        &&& after == before
    } else {
        &&& r matches Ok(m) && decoded_meta(m, meta, FourCc::RG24)
        &&& after.len() == before.len()
        &&& !planar_library_used(planar_source(meta, planes, sub_h, sub_v, u_first), w, h) ==> forall|k: int|
            0 <= k < w * h ==> #[trigger] rgb_of(after, k) == planar_pixel(
                planar_source(meta, planes, sub_h, sub_v, u_first),
                meta.format.color,
                k % w,
                k / w,
            )
        &&& forall|p: int| w * 3 * h <= p < before.len() ==> #[trigger] after[p] == before[p]
    }
}

fn decode_planar(
    i420: bool,
    input: FourCc,
    u_first: bool,
    sub_h: usize,
    sub_v: usize,
    meta: &FrameMeta,
    planes: &Vec<Plane>,
    dst: &mut [u8],
) -> (r: Result<FrameMeta, CodecError>)
    requires
        sub_h >= 1,
        sub_v >= 1,
    ensures
        planar_decoded(i420, input, u_first, sub_h as int, sub_v as int, *meta, planes@, old(dst)@, final(dst)@, r),
{
    if meta.format.code != input {
        return Err(CodecError::FormatMismatch { expected: input, actual: meta.format.code });
    }
    let width = meta.format.resolution.width.get() as usize;
    let height = meta.format.resolution.height.get() as usize;
    let chroma_width = chroma_count(width, sub_h);
    let chroma_height = chroma_count(height, sub_v);
    let (y_data, y_stride, u_data, u_stride, v_data, v_stride) = match planar_planes(meta, planes, sub_h, sub_v, u_first) {
        Ok(p) => p,
        Err(f) => return Err(CodecError::Codec(planar_failure_message(i420, f))),
    };
    assert(y_data@.len() == y_stride * height && u_data@.len() == u_stride * chroma_height
        && v_data@.len() == v_stride * chroma_height);
    let row_bytes = match width.checked_mul(3) {
        Some(n) => n,
        None => {
            assert(width * 3 * height > usize::MAX) by (nonlinear_arith)
                requires
                    width * 3 > usize::MAX,
                    height >= 1,
            ;
            return Err(CodecError::Codec(planar_failure_message(i420, PlanarFailure::OutputOverflow)));
        },
    };
    let out_len = match row_bytes.checked_mul(height) {
        Some(n) => n,
        None => return Err(CodecError::Codec(planar_failure_message(i420, PlanarFailure::OutputOverflow))),
    };
    if dst.len() < out_len {
        return Err(CodecError::Codec(planar_failure_message(i420, PlanarFailure::DstTooShort)));
    }
    assert(width * height * 3 == out_len && 3 * width * height == out_len) by (nonlinear_arith)
        requires
            out_len == row_bytes * height,
            row_bytes == width * 3,
    ;
    let color = meta.format.color;
    let (range, matrix) = map_colorspace(color);
    let ghost src = planar_source(*meta, planes@, sub_h as int, sub_v as int, u_first);
    let fits = pitch_fits(y_stride) && pitch_fits(u_stride) && pitch_fits(v_stride) && pitch_fits(row_bytes);
    let ok = if !fits {
        false
    } else if sub_h == 2 && sub_v == 2 {
        yuv420_to_rgb_lib(y_data, y_stride, u_data, u_stride, v_data, v_stride, width, height, dst, out_len, row_bytes, range, matrix)
    } else if sub_h == 2 && sub_v == 1 {
        yuv422_to_rgb_lib(y_data, y_stride, u_data, u_stride, v_data, v_stride, width, height, dst, out_len, row_bytes, range, matrix)
    } else if sub_h == 1 && sub_v == 1 {
        yuv444_to_rgb_lib(y_data, y_stride, u_data, u_stride, v_data, v_stride, width, height, dst, out_len, row_bytes, range, matrix)
    } else {
        false
    };
    assert(ok == planar_library_used(src, width as int, height as int));
    if !ok {
        proof {
            let w = width as int;
            let h = height as int;
            assert(((h - 1) * y_stride + w <= y_stride * h)) by (nonlinear_arith)
                requires
                    h >= 1,
                    w <= y_stride,
            ;
            lemma_chroma_rows(h, sub_v as int);
            assert(((h - 1) / (sub_v as int)) * u_stride + chroma_width <= u_stride * chroma_height) by (nonlinear_arith)
                requires
                    (h - 1) / (sub_v as int) + 1 == chroma_height,
                    chroma_width <= u_stride,
            {
                assert(((h - 1) / (sub_v as int)) * u_stride + u_stride == chroma_height * u_stride);
            }
            assert(((h - 1) / (sub_v as int)) * v_stride + chroma_width <= v_stride * chroma_height) by (nonlinear_arith)
                requires
                    (h - 1) / (sub_v as int) + 1 == chroma_height,
                    chroma_width <= v_stride,
            {
                assert(((h - 1) / (sub_v as int)) * v_stride + v_stride == chroma_height * v_stride);
            }
        }
        planar_to_rgb_fallback(y_data, y_stride, u_data, u_stride, v_data, v_stride, width, height, sub_h, sub_v, color, dst);
    }
    Ok(FrameMeta::new(MediaFormat::new(FourCc::RG24, meta.format.resolution, meta.format.color), meta.timestamp))
}


/// Decode a planar YUV frame (luma, then U and V planes in the order
/// `u_first` gives, chroma subsampled `sub_h` by `sub_v`) into a
/// caller-provided tightly packed RGB24 buffer: 4:2:0, 4:2:2 and 4:4:4
/// through the conversion library first, every subsampling through the
/// integer conversion where the library is not used or refuses.
pub fn decode_planar_into(
    input: FourCc,
    u_first: bool,
    sub_h: usize,
    sub_v: usize,
    meta: &FrameMeta,
    planes: &Vec<Plane>,
    dst: &mut [u8],
) -> (r: Result<FrameMeta, CodecError>)
    requires
        sub_h >= 1,
        sub_v >= 1,
    ensures
        planar_decoded(false, input, u_first, sub_h as int, sub_v as int, *meta, planes@, old(dst)@, final(dst)@, r),
{
    decode_planar(false, input, u_first, sub_h, sub_v, meta, planes, dst)
}

/// Decode an I420 frame (luma, U and V planes, chroma halved both ways)
/// into a caller-provided tightly packed RGB24 buffer.
pub fn decode_i420_into(meta: &FrameMeta, planes: &Vec<Plane>, dst: &mut [u8]) -> (r: Result<FrameMeta, CodecError>)
    ensures
        planar_decoded(true, FourCc::I420, true, 2, 2, *meta, planes@, old(dst)@, final(dst)@, r),
{
    decode_planar(true, FourCc::I420, true, 2, 2, meta, planes, dst)
}

} // verus!
