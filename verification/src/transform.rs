//! Rotation in quarter turns and horizontal mirroring of packed frames.
use vstd::prelude::*;

use crate::format::{ColorSpace, FourCc, MediaFormat, Resolution};
use crate::frame::{tight_layout, PlaneLayout};
use crate::meta::FrameMeta;
use crate::rows::Plane;

verus! {

/// Rotation in 90-degree steps, clockwise.
#[derive(Clone, Copy, Debug, PartialEq, Eq, Structural)]
pub enum Rotation90 {
    Deg0,
    Deg90,
    Deg180,
    Deg270,
}

impl Default for Rotation90 {
    fn default() -> (r: Self)
        ensures
            r == Rotation90::Deg0,
    {
        Rotation90::Deg0
    }
}

/// Frame transform applied to packed frames: rotate, then mirror the result.
#[derive(Clone, Copy, Debug, PartialEq, Eq, Structural)]
pub struct FrameTransform {
    /// Rotation in 90-degree steps.
    pub rotation: Rotation90,
    /// Mirror horizontally (left-right).
    pub mirror: bool,
}

impl Default for FrameTransform {
    fn default() -> (r: Self)
        ensures
            r == (FrameTransform { rotation: Rotation90::Deg0, mirror: false }),
    {
        FrameTransform { rotation: Rotation90::Deg0, mirror: false }
    }
}

impl FrameTransform {
    /// Whether the transform leaves every frame as it is.
    pub fn is_identity(&self) -> (r: bool)
        ensures
            r == (self.rotation == Rotation90::Deg0 && !self.mirror),
    {
        self.rotation == Rotation90::Deg0 && !self.mirror
    }
}

/// Errors produced by packed-frame transforms.
#[derive(Debug, Clone, Copy, PartialEq, Eq, Structural)]
pub enum TransformError {
    UnsupportedFormat(FourCc),
    UnsupportedLayout,
    InvalidResolution,
}

/// Bytes per pixel of the packed codes a transform accepts.
pub open spec fn transform_bpp(code: FourCc) -> Option<usize> {
    crate::format::packed_bpp_of(code)
}

fn packed_bytes_per_pixel(code: FourCc) -> (r: Option<usize>)
    ensures
        r == transform_bpp(code),
{
    code.packed_bytes_per_pixel()
}

/// Whether the rotation swaps width and height.
pub open spec fn swaps_axes(rotation: Rotation90) -> bool {
    rotation == Rotation90::Deg90 || rotation == Rotation90::Deg270
}

/// The source pixel that lands at `(xo, yo)` of the output of a `w` by `h`
/// frame.
pub open spec fn source_pixel(t: FrameTransform, xo: int, yo: int, w: int, h: int) -> (int, int) {
    let wo = if swaps_axes(t.rotation) {
        h
    } else {
        w
    };
    let xr = if t.mirror {
        wo - 1 - xo
    } else {
        xo
    };
    match t.rotation {
        Rotation90::Deg0 => (xr, yo),
        Rotation90::Deg90 => (yo, h - 1 - xr),
        Rotation90::Deg180 => (w - 1 - xr, h - 1 - yo),
        Rotation90::Deg270 => (w - 1 - yo, xr),
    }
}

/// Width of the output of `t` on a `w` by `h` frame.
pub open spec fn out_width(t: FrameTransform, w: int, h: int) -> int {
    if swaps_axes(t.rotation) {
        h
    } else {
        w
    }
}

/// Height of the output of `t` on a `w` by `h` frame.
pub open spec fn out_height(t: FrameTransform, w: int, h: int) -> int {
    if swaps_axes(t.rotation) {
        w
    } else {
        h
    }
}

/// Offset of byte `c` of pixel `(x, y)` in rows of `stride` bytes.
pub open spec fn pix(y: int, x: int, c: int, stride: int, bpp: int) -> int {
    y * stride + x * bpp + c
}

/// The output of a transform: every byte of every output pixel is the
/// corresponding byte of its source pixel.
pub open spec fn transformed(
    out: Seq<u8>,
    src: Seq<u8>,
    t: FrameTransform,
    w: int,
    h: int,
    src_stride: int,
    bpp: int,
) -> bool {
    let wo = out_width(t, w, h);
    let ho = out_height(t, w, h);
    &&& out.len() == wo * bpp * ho
    &&& forall|y: int, x: int, c: int|
        0 <= y < ho && 0 <= x < wo && 0 <= c < bpp ==> #[trigger] out[pix(y, x, c, wo * bpp, bpp)]
            == src[pix(source_pixel(t, x, y, w, h).1, source_pixel(t, x, y, w, h).0, c, src_stride, bpp)]
}

pub proof fn lemma_pixel_before(y2: int, x2: int, c2: int, y: int, x: int, c: int, wo: int, bpp: int)
    requires
        0 <= y2 <= y,
        0 <= x2 < wo,
        0 <= c2 < bpp,
        0 <= x <= wo,
        0 <= c <= bpp,
        y2 < y || x2 < x || (x2 == x && c2 < c),
        y2 == y ==> (x2 < x || (x2 == x && c2 < c)),
    ensures
        pix(y2, x2, c2, wo * bpp, bpp) < pix(y, x, c, wo * bpp, bpp),
        0 <= pix(y2, x2, c2, wo * bpp, bpp),
{
    assert(0 <= pix(y2, x2, c2, wo * bpp, bpp)) by (nonlinear_arith)
        requires
            0 <= y2,
            0 <= x2,
            0 <= c2,
            0 <= wo,
            0 <= bpp,
    ;
    if y2 < y {
        assert(pix(y2, x2, c2, wo * bpp, bpp) < pix(y, x, c, wo * bpp, bpp)) by (nonlinear_arith)
            requires
                0 <= y2 < y,
                0 <= x2 < wo,
                0 <= c2 < bpp,
                0 <= x,
                0 <= c,
        ;
    } else {
        assert(pix(y2, x2, c2, wo * bpp, bpp) < pix(y, x, c, wo * bpp, bpp)) by (nonlinear_arith)
            requires
                y2 == y,
                0 <= x2 < wo,
                0 <= c2 < bpp,
                x2 < x || (x2 == x && c2 < c),
                0 <= c,
        ;
    }
}


/// Rotate and mirror a tightly packed single-plane frame.
///
/// Returns the new metadata (format with the output resolution, the input's
/// timestamp, nothing else set), the output plane's layout and its bytes.
/// The input plane must hold `height` rows of `stride` bytes with every
/// row's pixels inside its stride.
pub fn transform_packed_frame(
    meta: &FrameMeta,
    planes: &Vec<Plane>,
    transform: FrameTransform,
) -> (r: Result<(FrameMeta, PlaneLayout, Vec<u8>), TransformError>)
    ensures
        ({
            let format = meta.format;
            let w = format.resolution.width@ as int;
            let h = format.resolution.height@ as int;
            let (wo, ho) = if swaps_axes(transform.rotation) {
                (h, w)
            } else {
                (w, h)
            };
            match transform_bpp(format.code) {
                None => r == Err::<(FrameMeta, PlaneLayout, Vec<u8>), TransformError>(
                    TransformError::UnsupportedFormat(format.code),
                ),
                Some(bpp) => if planes@.len() != 1 {
                    r == Err::<(FrameMeta, PlaneLayout, Vec<u8>), TransformError>(
                        TransformError::UnsupportedLayout,
                    )
                } else {
                    let stride = planes@[0].pitch() as int;
                    let src = planes@[0].bytes();
                    if stride * h > usize::MAX {
                        r == Err::<(FrameMeta, PlaneLayout, Vec<u8>), TransformError>(
                            TransformError::InvalidResolution,
                        )
                    } else if src.len() < stride * h {
                        r == Err::<(FrameMeta, PlaneLayout, Vec<u8>), TransformError>(
                            TransformError::UnsupportedLayout,
                        )
                    } else if wo * bpp > usize::MAX {
                        r == Err::<(FrameMeta, PlaneLayout, Vec<u8>), TransformError>(
                            TransformError::InvalidResolution,
                        )
                    } else if stride < w * bpp {
                        r == Err::<(FrameMeta, PlaneLayout, Vec<u8>), TransformError>(
                            TransformError::UnsupportedLayout,
                        )
                    } else {
                        r matches Ok((m, layout, out)) && m.format.code == format.code
                            && m.format.color == format.color && m.format.resolution.width@
                            == wo && m.format.resolution.height@ == ho && m.timestamp
                            == meta.timestamp && m.backend is None && m.capture_instant is None
                            && m.residency is None && m.last_transition is None && m.mutability
                            == crate::meta::FrameMutability::Mutable && layout == tight_layout(
                            wo * bpp,
                            ho,
                        ) && transformed(out@, src, transform, w, h, stride, bpp as int)
                    }
                },
            }
        }),
{
    let format = meta.format;
    let bpp = match packed_bytes_per_pixel(format.code) {
        Some(b) => b,
        None => return Err(TransformError::UnsupportedFormat(format.code)),
    };
    let width = format.resolution.width.get() as usize;
    let height = format.resolution.height.get() as usize;
    if planes.len() != 1 {
        return Err(TransformError::UnsupportedLayout);
    }
    let plane = planes[0];
    let src_stride = plane.stride();
    let src = plane.data();
    let min_len = match src_stride.checked_mul(height) {
        Some(m) => m,
        None => return Err(TransformError::InvalidResolution),
    };
    if src.len() < min_len {
        return Err(TransformError::UnsupportedLayout);
    }
    let swap = transform.rotation == Rotation90::Deg90 || transform.rotation == Rotation90::Deg270;
    let out_w_u32 = if swap {
        format.resolution.height.get()
    } else {
        format.resolution.width.get()
    };
    let out_h_u32 = if swap {
        format.resolution.width.get()
    } else {
        format.resolution.height.get()
    };
    let out_width = out_w_u32 as usize;
    let out_height = out_h_u32 as usize;
    let out_stride = match out_width.checked_mul(bpp) {
        Some(s) => s,
        None => return Err(TransformError::InvalidResolution),
    };
    let row_pixels = match width.checked_mul(bpp) {
        Some(p) => p,
        None => return Err(TransformError::UnsupportedLayout),
    };
    if src_stride < row_pixels {
        return Err(TransformError::UnsupportedLayout);
    }
    let out_res = match Resolution::new(out_w_u32, out_h_u32) {
        Some(res) => res,
        None => return Err(TransformError::InvalidResolution),
    };
    proof {
        assert(out_stride * out_height == width * bpp * height) by (nonlinear_arith)
            requires
                (out_width == width && out_height == height) || (out_width == height
                    && out_height == width),
                out_stride == out_width * bpp,
        ;
        assert(width * bpp * height <= src_stride * height) by (nonlinear_arith)
            requires
                width * bpp <= src_stride,
        ;
    }
    let out_len = out_stride * out_height;
    let mirror = transform.mirror;
    let src_len = src.len();
    let mut out: Vec<u8> = Vec::with_capacity(out_len);
    let ghost srcv = src@;
    let mut y_out: usize = 0;
    while y_out < out_height
        invariant
            y_out <= out_height,
            out@.len() == y_out * out_stride,
            out_stride == out_width * bpp,
            bpp >= 1,
            srcv == src@,
            src_len == srcv.len(),
            srcv.len() >= src_stride * height,
            src_stride >= width * bpp,
            width >= 1,
            height >= 1,
            swap == swaps_axes(transform.rotation),
            mirror == transform.mirror,
            swap ==> out_width == height && out_height == width,
            !swap ==> out_width == width && out_height == height,
            forall|y: int, x: int, c: int|
                0 <= y < y_out && 0 <= x < out_width && 0 <= c < bpp ==> #[trigger] out@[pix(
                    y,
                    x,
                    c,
                    out_width * bpp,
                    bpp as int,
                )] == srcv[pix(
                    source_pixel(transform, x, y, width as int, height as int).1,
                    source_pixel(transform, x, y, width as int, height as int).0,
                    c,
                    src_stride as int,
                    bpp as int,
                )],
        decreases out_height - y_out,
    {
        proof {
            assert(pix(y_out as int, 0, 0, out_width * bpp, bpp as int) == y_out * out_stride) by (nonlinear_arith)
                requires
                    out_stride == out_width * bpp,
            ;
        }
        let mut x_out: usize = 0;
        while x_out < out_width
            invariant
                y_out < out_height,
                x_out <= out_width,
                out@.len() == pix(y_out as int, x_out as int, 0, out_width * bpp, bpp as int),
                out_stride == out_width * bpp,
                bpp >= 1,
                srcv == src@,
                src_len == srcv.len(),
                srcv.len() >= src_stride * height,
                src_stride >= width * bpp,
                width >= 1,
                height >= 1,
                swap == swaps_axes(transform.rotation),
                mirror == transform.mirror,
                swap ==> out_width == height && out_height == width,
                !swap ==> out_width == width && out_height == height,
                forall|y: int, x: int, c: int|
                    0 <= y <= y_out && 0 <= x < out_width && 0 <= c < bpp && (y < y_out || x
                        < x_out) ==> #[trigger] out@[pix(
                        y,
                        x,
                        c,
                        out_width * bpp,
                        bpp as int,
                    )] == srcv[pix(
                        source_pixel(transform, x, y, width as int, height as int).1,
                        source_pixel(transform, x, y, width as int, height as int).0,
                        c,
                        src_stride as int,
                        bpp as int,
                    )],
            decreases out_width - x_out,
        {
            let x_rot = if mirror {
                out_width - 1 - x_out
            } else {
                x_out
            };
            let (x_in, y_in) = match transform.rotation {
                Rotation90::Deg0 => (x_rot, y_out),
                Rotation90::Deg90 => (y_out, height - 1 - x_rot),
                Rotation90::Deg180 => (width - 1 - x_rot, height - 1 - y_out),
                Rotation90::Deg270 => (width - 1 - y_out, x_rot),
            };
            proof {
                assert(y_in * src_stride + x_in * bpp + bpp <= src_stride * height) by (nonlinear_arith)
                    requires
                        y_in < height,
                        x_in < width,
                        src_stride >= width * bpp,
                ;
            }
            let src_off = y_in * src_stride + x_in * bpp;
            let ghost base = out@.len();
            let ghost prefix = out@;
            let mut c: usize = 0;
            while c < bpp
                invariant
                    c <= bpp,
                    out@.len() == base + c,
                    base == pix(y_out as int, x_out as int, 0, out_width * bpp, bpp as int),
                    src_off + bpp <= srcv.len(),
                    src_len == srcv.len(),
                    srcv == src@,
                    src_off == pix(y_in as int, x_in as int, 0, src_stride as int, bpp as int),
                    forall|q: int| 0 <= q < base ==> out@[q] == prefix[q],
                    prefix.len() == base,
                    forall|k: int| 0 <= k < c ==> #[trigger] out@[base + k] == srcv[src_off + k],
                decreases bpp - c,
            {
                out.push(src[src_off + c]);
                c = c + 1;
            }
            proof {
                assert(pix(y_out as int, (x_out + 1) as int, 0, out_width * bpp, bpp as int) == base
                    + bpp) by (nonlinear_arith)
                    requires
                        base == pix(y_out as int, x_out as int, 0, out_width * bpp, bpp as int),
                ;
                assert forall|y: int, x: int, cc: int|
                    0 <= y <= y_out && 0 <= x < out_width && 0 <= cc < bpp && (y < y_out || x
                        < x_out + 1) implies #[trigger] out@[pix(
                        y,
                        x,
                        cc,
                        out_width * bpp,
                        bpp as int,
                    )] == srcv[pix(
                        source_pixel(transform, x, y, width as int, height as int).1,
                        source_pixel(transform, x, y, width as int, height as int).0,
                        cc,
                        src_stride as int,
                        bpp as int,
                    )] by {
                    if y < y_out || x < x_out {
                        lemma_pixel_before(y, x, cc, y_out as int, x_out as int, 0, out_width as int, bpp as int);
                        assert(out@[pix(y, x, cc, out_width * bpp, bpp as int)] == prefix[pix(
                            y,
                            x,
                            cc,
                            out_width * bpp,
                            bpp as int,
                        )]);
                    } else {
                        assert(pix(y, x, cc, out_width * bpp, bpp as int) == base + cc);
                        assert(out@[base + cc] == srcv[src_off + cc]);
                    }
                }
            }
            x_out = x_out + 1;
        }
        proof {
            assert(pix(y_out as int, out_width as int, 0, out_width * bpp, bpp as int) == (y_out + 1)
                * out_stride) by (nonlinear_arith)
                requires
                    out_stride == out_width * bpp,
            ;
        }
        y_out = y_out + 1;
    }
    proof {
        assert(out@.len() == out_width * bpp * out_height) by (nonlinear_arith)
            requires
                out@.len() == out_height * out_stride,
                out_stride == out_width * bpp,
        ;
    }
    let out_meta = FrameMeta::new(MediaFormat::new(format.code, out_res, format.color), meta.timestamp);
    Ok((out_meta, PlaneLayout { offset: 0, len: out_len, stride: out_stride }, out))
}


/// The transform that undoes `t`: a mirrored transform is a reflection and
/// undoes itself; a rotation is undone by the opposite rotation.
pub open spec fn inverse_transform(t: FrameTransform) -> FrameTransform {
    if t.mirror {
        t
    } else {
        FrameTransform {
            rotation: match t.rotation {
                Rotation90::Deg0 => Rotation90::Deg0,
                Rotation90::Deg90 => Rotation90::Deg270,
                Rotation90::Deg180 => Rotation90::Deg180,
                Rotation90::Deg270 => Rotation90::Deg90,
            },
            mirror: false,
        }
    }
}

pub(crate) proof fn lemma_pixel_coords(i: int, w: int, h: int, bpp: int) -> (r: (int, int, int))
    requires
        w > 0,
        h > 0,
        bpp > 0,
        0 <= i < w * bpp * h,
    ensures
        0 <= r.0 < h,
        0 <= r.1 < w,
        0 <= r.2 < bpp,
        i == pix(r.0, r.1, r.2, w * bpp, bpp),
{
    let row = w * bpp;
    assert(row > 0) by (nonlinear_arith)
        requires
            row == w * bpp,
            w > 0,
            bpp > 0,
    ;
    vstd::arithmetic::div_mod::lemma_fundamental_div_mod(i, row);
    vstd::arithmetic::div_mod::lemma_mod_bound(i, row);
    let y = i / row;
    let rem = i % row;
    vstd::arithmetic::div_mod::lemma_fundamental_div_mod(rem, bpp);
    vstd::arithmetic::div_mod::lemma_mod_bound(rem, bpp);
    let x = rem / bpp;
    let c = rem % bpp;
    assert(0 <= y < h) by (nonlinear_arith)
        requires
            i == row * y + rem,
            0 <= rem < row,
            0 <= i < w * bpp * h,
            row == w * bpp,
            row > 0,
    ;
    assert(0 <= x < w) by (nonlinear_arith)
        requires
            rem == bpp * x + c,
            0 <= c < bpp,
            0 <= rem < w * bpp,
            bpp > 0,
    ;
    assert(i == y * row + x * bpp + c) by (nonlinear_arith)
        requires
            i == row * y + rem,
            rem == bpp * x + c,
    ;
    assert(i == pix(y, x, c, w * bpp, bpp));
    (y, x, c)
}

proof fn lemma_transformed_at(
    out: Seq<u8>,
    src: Seq<u8>,
    t: FrameTransform,
    w: int,
    h: int,
    src_stride: int,
    bpp: int,
    x: int,
    y: int,
    c: int,
)
    requires
        transformed(out, src, t, w, h, src_stride, bpp),
        0 <= x < out_width(t, w, h),
        0 <= y < out_height(t, w, h),
        0 <= c < bpp,
    ensures
        out[pix(y, x, c, out_width(t, w, h) * bpp, bpp)] == src[pix(
            source_pixel(t, x, y, w, h).1,
            source_pixel(t, x, y, w, h).0,
            c,
            src_stride,
            bpp,
        )],
{
}

/// Applying a transform and then its inverse gives back the original
/// frame: for a tightly packed `w` by `h` frame `src` of `bpp`-byte
/// pixels, transforming it by `t` into `mid` and `mid` by
/// `inverse_transform(t)` into `back` leaves `back` equal to `src`.
pub proof fn lemma_inverse_transform_restores(
    src: Seq<u8>,
    mid: Seq<u8>,
    back: Seq<u8>,
    t: FrameTransform,
    w: int,
    h: int,
    bpp: int,
)
    requires
        w > 0,
        h > 0,
        bpp > 0,
        src.len() == w * bpp * h,
        transformed(mid, src, t, w, h, w * bpp, bpp),
        transformed(
            back,
            mid,
            inverse_transform(t),
            if swaps_axes(t.rotation) { h } else { w },
            if swaps_axes(t.rotation) { w } else { h },
            (if swaps_axes(t.rotation) { h } else { w }) * bpp,
            bpp,
        ),
    ensures
        back == src,
{
    let wo = if swaps_axes(t.rotation) { h } else { w };
    let ho = if swaps_axes(t.rotation) { w } else { h };
    let ti = inverse_transform(t);
    assert(swaps_axes(ti.rotation) == swaps_axes(t.rotation));
    assert(back.len() == w * bpp * h);
    assert forall|i: int| 0 <= i < back.len() implies back[i] == src[i] by {
        let (y, x, c) = lemma_pixel_coords(i, w, h, bpp);
        let (x1, y1) = source_pixel(ti, x, y, wo, ho);
        assert(0 <= x1 < wo && 0 <= y1 < ho);
        lemma_transformed_at(back, mid, ti, wo, ho, wo * bpp, bpp, x, y, c);
        let (x0, y0) = source_pixel(t, x1, y1, w, h);
        assert(x0 == x && y0 == y);
        lemma_transformed_at(mid, src, t, w, h, w * bpp, bpp, x1, y1, c);
    }
    assert(back =~= src);
}

} // verus!
