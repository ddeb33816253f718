//! Packed 4:2:2 YUV (two pixels in four bytes, in any byte order) to RGB24:
//! through `yuvutils_rs` for the YUYV and UYVY codes, and by the integer
//! conversion wherever the library is not used or refuses.
use vstd::prelude::*;

use crate::bayer::{lemma_pixel_index, rgb_of};
use crate::format::{ColorSpace, FourCc, MediaFormat};
use crate::meta::FrameMeta;
use crate::raw::{decoded_meta, CodecError};
use crate::rows::Plane;
use crate::yuv::{
    YuyvFailure, lemma_bytes_fit, map_colorspace, uyvy422_to_rgb_lib, yuv_rgb, yuv_to_rgb, yuyv422_to_rgb_lib,
    yuyv_dims_ok, yuyv_tight_len,
};
use vstd::slice::slice_subrange;

verus! {

/// Each of the four byte positions of a pixel pair (first luma, U, second
/// luma, V) lies inside the pair.
pub open spec fn order_ok(order: Seq<usize>) -> bool {
    &&& order.len() == 4
    &&& forall|i: int| 0 <= i < 4 ==> #[trigger] order[i] < 4
}

/// RGB of pixel `(x, y)` of a packed 4:2:2 frame, rows `stride` bytes
/// apart: the pair of pixels holding it starts at byte `(x / 2) * 4` of its
/// row, and `order` gives the offsets of its first luma, U, second luma and
/// V inside the pair.
pub open spec fn packed422_pixel(
    src: Seq<u8>,
    stride: int,
    order: Seq<usize>,
    color: ColorSpace,
    x: int,
    y: int,
) -> (u8, u8, u8) {
    let base = y * stride + (x / 2) * 4;
    let luma = if x % 2 == 0 {
        src[base + order[0]]
    } else {
        src[base + order[2]]
    };
    yuv_rgb(luma as int, src[base + order[1]] as int, src[base + order[3]] as int, color)
}

proof fn lemma_pair_in_row(y: int, x: int, stride: int, width: int, height: int, off: int)
    by (nonlinear_arith)
    requires
        0 <= y < height,
        0 <= x < width,
        x % 2 == 0,
        0 <= off < 4,
        2 * width <= stride,
        width % 2 == 1 ==> 2 * width + 2 <= stride,
    ensures
        0 <= y * stride + (x / 2) * 4 + off,
        y * stride + (x / 2) * 4 + off < stride * height,
{
    assert((x / 2) * 4 == 2 * x);
    if x + 1 < width {
        assert(2 * x + off < stride);
    } else {
        assert(2 * x + off <= 2 * width + 1);
    }
    assert(y * stride + stride <= height * stride);
}

/// Convert a packed 4:2:2 frame, rows `stride` bytes apart, to tightly
/// packed RGB24 with the integer conversion, pair by pair; the last pixel
/// of an odd-width row takes the first luma and the chroma of its pair.
pub fn packed422_to_rgb_fallback(
    src: &[u8],
    stride: usize,
    width: usize,
    height: usize,
    order: [usize; 4],
    color: ColorSpace,
    dst: &mut [u8],
)
    requires
        width >= 1,
        2 * width <= stride,
        width % 2 == 1 ==> 2 * width + 2 <= stride,
        stride * height <= src@.len(),
        order_ok(order@),
        width * height * 3 <= old(dst)@.len(),
    ensures
        final(dst)@.len() == old(dst)@.len(),
        forall|k: int|
            0 <= k < width * height ==> #[trigger] rgb_of(final(dst)@, k) == packed422_pixel(
                src@,
                stride as int,
                order@,
                color,
                k % (width as int),
                k / (width as int),
            ),
        forall|p: int|
            width * height * 3 <= p < old(dst)@.len() ==> #[trigger] final(dst)@[p] == old(dst)@[p],
{
    let ghost w = width as int;
    let ghost h = height as int;
    let ghost orig = dst@;
    let o0 = order[0];
    let o1 = order[1];
    let o2 = order[2];
    let o3 = order[3];
    assert(o0 < 4 && o1 < 4 && o2 < 4 && o3 < 4) by {
        assert(order@[0] < 4 && order@[1] < 4 && order@[2] < 4 && order@[3] < 4);
    }
    let n = dst.len();
    let slen = src.len();
    let mut y: usize = 0;
    let mut k: usize = 0;
    while y < height
        invariant
            y <= height,
            w == width,
            h == height,
            w >= 1,
            k == y * w,
            n == orig.len(),
            slen == src@.len(),
            orig == old(dst)@,
            o0 == order@[0] && o1 == order@[1] && o2 == order@[2] && o3 == order@[3],
            o0 < 4 && o1 < 4 && o2 < 4 && o3 < 4,
            2 * width <= stride,
            width % 2 == 1 ==> 2 * width + 2 <= stride,
            stride * height <= src@.len(),
            w * h * 3 <= orig.len(),
            dst@.len() == orig.len(),
            forall|j: int|
                0 <= j < k ==> #[trigger] rgb_of(dst@, j) == packed422_pixel(
                    src@,
                    stride as int,
                    order@,
                    color,
                    j % w,
                    j / w,
                ),
            forall|p: int| 3 * k <= p < orig.len() ==> #[trigger] dst@[p] == orig[p],
        decreases height - y,
    {
        let mut x: usize = 0;
        while x + 1 < width
            invariant
                x <= width,
                x % 2 == 0,
                y < height,
                w == width,
                h == height,
                k == y * w + x,
                n == orig.len(),
                slen == src@.len(),
                o0 == order@[0] && o1 == order@[1] && o2 == order@[2] && o3 == order@[3],
                o0 < 4 && o1 < 4 && o2 < 4 && o3 < 4,
                2 * width <= stride,
                width % 2 == 1 ==> 2 * width + 2 <= stride,
                stride * height <= src@.len(),
                w * h * 3 <= orig.len(),
                dst@.len() == orig.len(),
                forall|j: int|
                    0 <= j < k ==> #[trigger] rgb_of(dst@, j) == packed422_pixel(
                        src@,
                        stride as int,
                        order@,
                        color,
                        j % w,
                        j / w,
                    ),
                forall|p: int| 3 * k <= p < orig.len() ==> #[trigger] dst@[p] == orig[p],
            decreases width - x,
        {
            proof {
                lemma_pixel_index(k as int, x as int, y as int, w, h);
                lemma_pixel_index(k as int + 1, x as int + 1, y as int, w, h);
                lemma_pair_in_row(y as int, x as int, stride as int, w, h, o0 as int);
                lemma_pair_in_row(y as int, x as int, stride as int, w, h, o1 as int);
                lemma_pair_in_row(y as int, x as int, stride as int, w, h, o2 as int);
                lemma_pair_in_row(y as int, x as int, stride as int, w, h, o3 as int);
                assert(y * stride + (x / 2) * 4 == y * stride + 2 * x);
            }
            let base = y * stride + 2 * x;
            let y0 = src[base + o0];
            let u = src[base + o1];
            let y1 = src[base + o2];
            let v = src[base + o3];
            proof {
                lemma_bytes_fit(y0 as int, u as int, v as int, color);
                lemma_bytes_fit(y1 as int, u as int, v as int, color);
            }
            let (r0, g0, b0) = yuv_to_rgb(y0 as i32, u as i32, v as i32, color);
            let (r1, g1, b1) = yuv_to_rgb(y1 as i32, u as i32, v as i32, color);
            let ghost before = dst@;
            dst[3 * k] = r0;
            dst[3 * k + 1] = g0;
            dst[3 * k + 2] = b0;
            dst[3 * k + 3] = r1;
            dst[3 * k + 4] = g1;
            dst[3 * k + 5] = b1;
            proof {
                assert(x / 2 * 4 == 2 * x);
                assert((x + 1) / 2 * 4 == 2 * x);
                assert((x + 1) % 2 == 1);
                assert forall|j: int| 0 <= j < k + 2 implies #[trigger] rgb_of(dst@, j)
                    == packed422_pixel(src@, stride as int, order@, color, j % w, j / w) by {
                    if j < k {
                        assert(rgb_of(before, j) == rgb_of(dst@, j));
                    }
                }
            }
            k = k + 2;
            x = x + 2;
        }
        if x < width {
            proof {
                lemma_pixel_index(k as int, x as int, y as int, w, h);
                lemma_pair_in_row(y as int, x as int, stride as int, w, h, o0 as int);
                lemma_pair_in_row(y as int, x as int, stride as int, w, h, o1 as int);
                lemma_pair_in_row(y as int, x as int, stride as int, w, h, o3 as int);
                assert(y * stride + (x / 2) * 4 == y * stride + 2 * x);
            }
            let base = y * stride + 2 * x;
            let yv = src[base + o0];
            let u = src[base + o1];
            let v = src[base + o3];
            proof {
                lemma_bytes_fit(yv as int, u as int, v as int, color);
            }
            let (r, g, b) = yuv_to_rgb(yv as i32, u as i32, v as i32, color);
            let ghost before = dst@;
            dst[3 * k] = r;
            dst[3 * k + 1] = g;
            dst[3 * k + 2] = b;
            proof {
                assert forall|j: int| 0 <= j < k + 1 implies #[trigger] rgb_of(dst@, j)
                    == packed422_pixel(src@, stride as int, order@, color, j % w, j / w) by {
                    if j < k {
                        assert(rgb_of(before, j) == rgb_of(dst@, j));
                    }
                }
            }
            k = k + 1;
            x = x + 1;
        }
        assert(k == (y + 1) * w) by (nonlinear_arith)
            requires
                k == y * w + w,
        ;
        y = y + 1;
    }
    assert(k == w * h) by (nonlinear_arith)
        requires
            k == h * w,
    ;
}

/// The message a packed 4:2:2 decoder gives for each failure.
pub open spec fn packed422_failure_text(f: YuyvFailure) -> &'static str {
    match f {
        YuyvFailure::MissingPlane => "yuv422 frame missing plane",
        YuyvFailure::StrideOverflow => "yuv422 stride overflow",
        YuyvFailure::PlaneTooShort => "yuv422 plane buffer too short",
        YuyvFailure::OutputOverflow => "yuv422 output overflow",
        YuyvFailure::DstTooShort => "yuv422 dst buffer too short",
    }
}

fn packed422_failure_message(f: YuyvFailure) -> (r: String)
    ensures
        r@ == packed422_failure_text(f)@,
{
    let text: &str = match f {
        YuyvFailure::MissingPlane => "yuv422 frame missing plane",
        YuyvFailure::StrideOverflow => "yuv422 stride overflow",
        YuyvFailure::PlaneTooShort => "yuv422 plane buffer too short",
        YuyvFailure::OutputOverflow => "yuv422 output overflow",
        YuyvFailure::DstTooShort => "yuv422 dst buffer too short",
    };
    text.to_owned()
}

/// Row pitch a packed 4:2:2 decoder reads the first plane with: the
/// plane's, widened to a full row of two-byte pixels.
pub open spec fn packed422_stride(meta: FrameMeta, plane: Plane) -> int {
    let min = 2 * meta.format.resolution.width@;
    if plane.pitch() >= min {
        plane.pitch() as int
    } else {
        min as int
    }
}

/// The first thing wrong with a packed 4:2:2 decode whose input code
/// matched.
pub open spec fn packed422_failure(meta: FrameMeta, planes: Seq<Plane>, dst_len: int) -> Option<YuyvFailure> {
    let w = meta.format.resolution.width@ as int;
    let h = meta.format.resolution.height@ as int;
    if planes.len() == 0 {
        Some(YuyvFailure::MissingPlane)
    } else {
        let stride = packed422_stride(meta, planes[0]);
        if stride * h > usize::MAX {
            Some(YuyvFailure::StrideOverflow)
        } else if planes[0].bytes().len() < stride * h {
            Some(YuyvFailure::PlaneTooShort)
        } else if w * 3 * h > usize::MAX {
            Some(YuyvFailure::OutputOverflow)
        } else if dst_len < w * 3 * h {
            Some(YuyvFailure::DstTooShort)
        } else {
            None
        }
    }
}

/// The input codes whose conversion is first offered to the library.
pub open spec fn packed422_library_code(code: FourCc) -> bool {
    code == FourCc::YUYV || code == FourCc::UYVY
}

/// The inputs on which a validated packed 4:2:2 decode runs to completion:
/// an odd-width row's last pair fits in the row pitch, and a frame offered
/// to the library is within the library's size arithmetic.
pub open spec fn packed422_runs(input: FourCc, meta: FrameMeta, planes: Seq<Plane>) -> bool {
    let w = meta.format.resolution.width@ as int;
    let h = meta.format.resolution.height@ as int;
    &&& w % 2 == 1 ==> packed422_stride(meta, planes[0]) >= 2 * w + 2
    &&& packed422_library_code(input) ==> yuyv_dims_ok(w, h)
}

/// Decode the first plane of a packed 4:2:2 frame with code `input` and
/// pair layout `order` (offsets of the first luma, U, second luma and V)
/// into a caller-provided tightly packed RGB24 buffer.  YUYV and UYVY
/// frames are first offered to the conversion library, which takes
/// tightly packed frames only; every other frame, and every frame it
/// refuses, gets the integer conversion.
pub fn decode_packed422_into(
    input: FourCc,
    order: [usize; 4],
    meta: &FrameMeta,
    planes: &Vec<Plane>,
    dst: &mut [u8],
) -> (r: Result<FrameMeta, CodecError>)
    requires
        order_ok(order@),
        meta.format.code == input && planes@.len() > 0 ==> 2 * meta.format.resolution.width@ <= usize::MAX,
        meta.format.code == input && packed422_failure(*meta, planes@, old(dst)@.len() as int) is None
            ==> packed422_runs(input, *meta, planes@),
    ensures
        meta.format.code != input ==> (r matches Err(CodecError::FormatMismatch { expected, actual })
            && expected == input && actual == meta.format.code) && final(dst)@ == old(dst)@,
        meta.format.code == input && packed422_failure(*meta, planes@, old(dst)@.len() as int) is Some
            ==> (r matches Err(CodecError::Codec(s)) && s@ == packed422_failure_text(
            packed422_failure(*meta, planes@, old(dst)@.len() as int)->Some_0,
        )@) && final(dst)@ == old(dst)@,
        meta.format.code == input && packed422_failure(*meta, planes@, old(dst)@.len() as int) is None
            ==> ({
            let w = meta.format.resolution.width@ as int;
            let h = meta.format.resolution.height@ as int;
            let stride = packed422_stride(*meta, planes@[0]);
            &&& r matches Ok(m) && decoded_meta(m, *meta, FourCc::RG24)
            &&& final(dst)@.len() == old(dst)@.len()
            &&& (!packed422_library_code(input) || stride * h != yuyv_tight_len(w, h)) ==> forall|k: int|
                0 <= k < w * h ==> #[trigger] rgb_of(final(dst)@, k) == packed422_pixel(
                    planes@[0].bytes(),
                    stride,
                    order@,
                    meta.format.color,
                    k % w,
                    k / w,
                )
            &&& forall|p: int| w * 3 * h <= p < old(dst)@.len() ==> #[trigger] final(dst)@[p] == old(dst)@[p]
        }),
{
    if meta.format.code != input {
        return Err(CodecError::FormatMismatch { expected: input, actual: meta.format.code });
    }
    if planes.len() == 0 {
        return Err(CodecError::Codec(packed422_failure_message(YuyvFailure::MissingPlane)));
    }
    let plane = planes[0];
    let width = meta.format.resolution.width.get() as usize;
    let height = meta.format.resolution.height.get() as usize;
    let color = meta.format.color;
    let stride = if plane.stride() >= width * 2 {
        plane.stride()
    } else {
        width * 2
    };
    let required = match stride.checked_mul(height) {
        Some(n) => n,
        None => return Err(CodecError::Codec(packed422_failure_message(YuyvFailure::StrideOverflow))),
    };
    let data = plane.data();
    if data.len() < required {
        return Err(CodecError::Codec(packed422_failure_message(YuyvFailure::PlaneTooShort)));
    }
    let row_bytes = match width.checked_mul(3) {
        Some(n) => n,
        None => {
            assert(width * 3 * height > usize::MAX) by (nonlinear_arith)
                requires
                    width * 3 > usize::MAX,
                    height >= 1,
            ;
            return Err(CodecError::Codec(packed422_failure_message(YuyvFailure::OutputOverflow)));
        },
    };
    let out_len = match row_bytes.checked_mul(height) {
        Some(n) => n,
        None => return Err(CodecError::Codec(packed422_failure_message(YuyvFailure::OutputOverflow))),
    };
    if dst.len() < out_len {
        return Err(CodecError::Codec(packed422_failure_message(YuyvFailure::DstTooShort)));
    }
    assert(width * height * 3 == out_len) by (nonlinear_arith)
        requires
            out_len == row_bytes * height,
            row_bytes == width * 3,
    ;
    let src = slice_subrange(data, 0, required);
    let (range, matrix) = map_colorspace(color);
    let ok = if input == FourCc::YUYV {
        yuyv422_to_rgb_lib(src, stride, width, height, dst, out_len, row_bytes, range, matrix)
    } else if input == FourCc::UYVY {
        uyvy422_to_rgb_lib(src, stride, width, height, dst, out_len, row_bytes, range, matrix)
    } else {
        false
    };
    if !ok {
        let ghost before = dst@;
        packed422_to_rgb_fallback(src, stride, width, height, order, color, dst);
        proof {
            let w = width as int;
            let h = height as int;
            assert forall|k: int| 0 <= k < w * h implies #[trigger] rgb_of(dst@, k) == packed422_pixel(
                data@,
                stride as int,
                order@,
                color,
                k % w,
                k / w,
            ) by {
                lemma_pixel_coords(k, w, h);
                let x = k % w;
                let yy = k / w;
                if x % 2 == 0 {
                    lemma_pair_in_row(yy, x, stride as int, w, h, order@[0] as int);
                    lemma_pair_in_row(yy, x, stride as int, w, h, order@[1] as int);
                    lemma_pair_in_row(yy, x, stride as int, w, h, order@[3] as int);
                } else {
                    lemma_pair_in_row(yy, x - 1, stride as int, w, h, order@[1] as int);
                    lemma_pair_in_row(yy, x - 1, stride as int, w, h, order@[2] as int);
                    lemma_pair_in_row(yy, x - 1, stride as int, w, h, order@[3] as int);
                    assert((x - 1) / 2 == x / 2);
                }
            }
        }
    }
    Ok(FrameMeta::new(MediaFormat::new(FourCc::RG24, meta.format.resolution, meta.format.color), meta.timestamp))
}

proof fn lemma_pixel_coords(k: int, w: int, h: int)
    requires
        0 <= k < w * h,
        0 < w,
    ensures
        0 <= k % w < w,
        0 <= k / w < h,
{
    vstd::arithmetic::div_mod::lemma_fundamental_div_mod(k, w);
    vstd::arithmetic::div_mod::lemma_mod_bound(k, w);
    assert(0 <= k / w < h) by (nonlinear_arith)
        requires
            k == w * (k / w) + k % w,
            0 <= k % w < w,
            0 <= k < w * h,
            0 < w,
    ;
}

} // verus!
