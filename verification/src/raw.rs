//! Raw pixel conversions to RGB24: channel swaps, alpha stripping, grey
//! replication and 16-bit to 8-bit reduction.
use vstd::prelude::*;

use crate::format::{FourCc, MediaFormat};
use crate::meta::FrameMeta;
use crate::rows::Plane;
use crate::transform::{lemma_pixel_before, pix};

verus! {

/// Encoders/decoders share the same entry-point; the kind distinguishes behavior.
#[derive(Debug, Clone, Copy, PartialEq, Eq, Structural)]
pub enum CodecKind {
    Encoder,
    Decoder,
}

impl CodecKind {
    /// Stable lower-case name of the kind.
    pub fn as_str(&self) -> (r: &'static str)
        ensures
            r@ == (match *self {
                CodecKind::Encoder => "encoder",
                CodecKind::Decoder => "decoder",
            })@,
    {
        match self {
            CodecKind::Encoder => "encoder",
            CodecKind::Decoder => "decoder",
        }
    }
}

/// Why a codec refused or failed a frame.
#[derive(Debug)]
pub enum CodecError {
    FormatMismatch { expected: FourCc, actual: FourCc },
    Codec(String),
    Backpressure,
}

/// A passthrough decoder's check of a frame: a frame of the code it takes
/// passes unchanged; any other is a format mismatch.
pub fn expect_code(expected: FourCc, actual: FourCc) -> (r: Result<(), CodecError>)
    ensures
        actual == expected ==> r is Ok,
        actual != expected ==> (r matches Err(CodecError::FormatMismatch { expected: e, actual: a }) && e == expected
            && a == actual),
{
    if actual == expected {
        Ok(())
    } else {
        Err(CodecError::FormatMismatch { expected, actual })
    }
}

/// A per-pixel conversion of a packed format to RGB24.
#[derive(Debug, Clone, Copy, PartialEq, Eq, Structural)]
pub enum PackedConversion {
    /// BGR24 to RGB24: swap red and blue.
    BgrToRgb,
    /// BGRA32 to RGB24: swap red and blue, drop alpha.
    BgraToRgb,
    /// 8-bit grey to RGB24: replicate.
    Mono8ToRgb,
    /// 16-bit little-endian grey to RGB24: replicate the high byte.
    Mono16ToRgb,
    /// 48-bit little-endian RGB to RGB24: keep each channel's high byte,
    /// swapping red and blue when asked.
    Rgb48ToRgb { swap_rb: bool },
}

/// Bytes per input pixel.
pub open spec fn in_bpp(conv: PackedConversion) -> usize {
    match conv {
        PackedConversion::BgrToRgb => 3,
        PackedConversion::BgraToRgb => 4,
        PackedConversion::Mono8ToRgb => 1,
        PackedConversion::Mono16ToRgb => 2,
        PackedConversion::Rgb48ToRgb { .. } => 6,
    }
}

/// Offset inside an input pixel of the byte that becomes output channel `c`.
pub open spec fn source_byte(conv: PackedConversion, c: int) -> int {
    match conv {
        PackedConversion::BgrToRgb | PackedConversion::BgraToRgb => 2 - c,
        PackedConversion::Mono8ToRgb => 0,
        PackedConversion::Mono16ToRgb => 1,
        PackedConversion::Rgb48ToRgb { swap_rb } => if swap_rb {
            2 * (2 - c) + 1
        } else {
            2 * c + 1
        },
    }
}

fn input_bytes_per_pixel(conv: PackedConversion) -> (r: usize)
    ensures
        r == in_bpp(conv),
{
    match conv {
        PackedConversion::BgrToRgb => 3,
        PackedConversion::BgraToRgb => 4,
        PackedConversion::Mono8ToRgb => 1,
        PackedConversion::Mono16ToRgb => 2,
        PackedConversion::Rgb48ToRgb { .. } => 6,
    }
}

fn source_byte_exec(conv: PackedConversion, c: usize) -> (r: usize)
    requires
        c < 3,
    ensures
        r == source_byte(conv, c as int),
        r < in_bpp(conv),
{
    match conv {
        PackedConversion::BgrToRgb | PackedConversion::BgraToRgb => 2 - c,
        PackedConversion::Mono8ToRgb => 0,
        PackedConversion::Mono16ToRgb => 1,
        PackedConversion::Rgb48ToRgb { swap_rb } => if swap_rb {
            2 * (2 - c) + 1
        } else {
            2 * c + 1
        },
    }
}

/// `dst` holds the RGB24 conversion of `height` rows of `width` input pixels
/// read `stride` bytes apart from `src`, rows packed `width * 3` bytes apart.
pub open spec fn converted(
    conv: PackedConversion,
    src: Seq<u8>,
    stride: int,
    width: int,
    height: int,
    dst: Seq<u8>,
) -> bool {
    forall|y: int, x: int, c: int|
        0 <= y < height && 0 <= x < width && 0 <= c < 3 ==> #[trigger] dst[pix(
            y,
            x,
            c,
            width * 3,
            3,
        )] == src[pix(y, x, source_byte(conv, c), stride, in_bpp(conv) as int)]
}

/// What each packed conversion makes of a pixel, byte by byte: BGR24 and
/// BGRA32 pixels give red from their third byte, green from the second and
/// blue from the first (alpha dropped); 8-bit grey gives its byte in all
/// three channels; 16-bit little-endian grey gives its high byte in all
/// three; 48-bit RGB gives each channel's high byte, red and blue swapped
/// where asked.  Rows are read at the plane's pitch widened to a row of
/// input pixels.
pub proof fn lemma_packed_conversion_channels(
    conv: PackedConversion,
    src: Seq<u8>,
    pitch: int,
    width: int,
    height: int,
    dst: Seq<u8>,
)
    requires
        converted(conv, src, read_stride(conv, pitch, width), width, height, dst),
    ensures
        ({
            let bpp: int = match conv {
                PackedConversion::BgrToRgb => 3,
                PackedConversion::BgraToRgb => 4,
                PackedConversion::Mono8ToRgb => 1,
                PackedConversion::Mono16ToRgb => 2,
                PackedConversion::Rgb48ToRgb { .. } => 6,
            };
            let stride = if pitch >= width * bpp { pitch } else { width * bpp };
            forall|y: int, x: int, c: int|
                0 <= y < height && 0 <= x < width && 0 <= c < 3 ==> #[trigger] dst[y * (3 * width) + 3 * x + c]
                    == src[y * stride + x * bpp + match conv {
                    PackedConversion::BgrToRgb => 2 - c,
                    PackedConversion::BgraToRgb => 2 - c,
                    PackedConversion::Mono8ToRgb => 0,
                    PackedConversion::Mono16ToRgb => 1,
                    PackedConversion::Rgb48ToRgb { swap_rb } => if swap_rb {
                        5 - 2 * c
                    } else {
                        2 * c + 1
                    },
                }]
        }),
{
    let st = read_stride(conv, pitch, width);
    let b = in_bpp(conv) as int;
    assert forall|y: int, x: int, c: int| 0 <= y < height && 0 <= x < width && 0 <= c < 3 implies #[trigger] dst[y
        * (3 * width) + 3 * x + c] == src[y * st + x * b + source_byte(conv, c)] by {
        assert(dst[pix(y, x, c, width * 3, 3)] == src[pix(y, x, source_byte(conv, c), st, b)]);
    }
}

/// Convert `height` rows of `width` pixels into the first `width * 3 * height`
/// bytes of `dst`; the rest of `dst` is left as it was.
pub fn convert_packed_rows(
    conv: PackedConversion,
    src: &[u8],
    stride: usize,
    width: usize,
    height: usize,
    dst: &mut [u8],
)
    requires
        stride >= width * in_bpp(conv),
        stride * height <= src@.len(),
        width * 3 * height <= old(dst)@.len(),
    ensures
        final(dst)@.len() == old(dst)@.len(),
        converted(conv, src@, stride as int, width as int, height as int, final(dst)@),
        forall|p: int|
            width * 3 * height <= p < old(dst)@.len() ==> #[trigger] final(dst)@[p] == old(
                dst,
            )@[p],
{
    let bpp = input_bytes_per_pixel(conv);
    let src_len = src.len();
    let dst_len = dst.len();
    let ghost start = dst@;
    let mut y: usize = 0;
    while y < height
        invariant
            y <= height,
            bpp == in_bpp(conv),
            src_len == src@.len(),
            dst_len == dst@.len(),
            dst_len == start.len(),
            stride >= width * bpp,
            stride * height <= src_len,
            width * 3 * height <= dst_len,
            forall|yy: int, x: int, c: int|
                0 <= yy < y && 0 <= x < width && 0 <= c < 3 ==> #[trigger] dst@[pix(
                    yy,
                    x,
                    c,
                    width * 3,
                    3,
                )] == src@[pix(yy, x, source_byte(conv, c), stride as int, bpp as int)],
            forall|p: int|
                pix(y as int, 0, 0, width * 3, 3) <= p < dst_len ==> #[trigger] dst@[p]
                    == start[p],
        decreases height - y,
    {
        let mut x: usize = 0;
        while x < width
            invariant
                y < height,
                x <= width,
                bpp == in_bpp(conv),
                src_len == src@.len(),
                dst_len == dst@.len(),
                dst_len == start.len(),
                stride >= width * bpp,
                stride * height <= src_len,
                width * 3 * height <= dst_len,
                forall|yy: int, xx: int, c: int|
                    0 <= yy <= y && 0 <= xx < width && 0 <= c < 3 && (yy < y || xx < x)
                        ==> #[trigger] dst@[pix(yy, xx, c, width * 3, 3)] == src@[pix(
                        yy,
                        xx,
                        source_byte(conv, c),
                        stride as int,
                        bpp as int,
                    )],
                forall|p: int|
                    pix(y as int, x as int, 0, width * 3, 3) <= p < dst_len ==> #[trigger] dst@[p]
                        == start[p],
            decreases width - x,
        {
            proof {
                assert(y * stride + x * bpp + bpp <= stride * height) by (nonlinear_arith)
                    requires
                        y < height,
                        x < width,
                        stride >= width * bpp,
                ;
                assert(y * (width * 3) + x * 3 + 3 <= width * 3 * height) by (nonlinear_arith)
                    requires
                        y < height,
                        x < width,
                ;
                assert(width * 3 <= width * 3 * height) by (nonlinear_arith)
                    requires
                        y < height,
                ;
            }
            let src_off = y * stride + x * bpp;
            let dst_off = y * (width * 3) + x * 3;
            let ghost prev = dst@;
            let mut c: usize = 0;
            while c < 3
                invariant
                    c <= 3,
                    bpp == in_bpp(conv),
                    src_off + bpp <= src@.len(),
                    src_len == src@.len(),
                    dst_off + 3 <= dst@.len(),
                    dst_len == dst@.len(),
                    dst_off == pix(y as int, x as int, 0, width * 3, 3),
                    src_off == pix(y as int, x as int, 0, stride as int, bpp as int),
                    forall|p: int| 0 <= p < dst_len && !(dst_off <= p < dst_off + c) ==> #[trigger] dst@[p] == prev[p],
                    forall|k: int| 0 <= k < c ==> #[trigger] dst@[dst_off + k] == src@[src_off + source_byte(conv, k)],
                decreases 3 - c,
            {
                let s = source_byte_exec(conv, c);
                dst[dst_off + c] = src[src_off + s];
                c = c + 1;
            }
            proof {
                assert(pix(y as int, (x + 1) as int, 0, width * 3, 3) == dst_off + 3) by (nonlinear_arith)
                    requires
                        dst_off == pix(y as int, x as int, 0, width * 3, 3),
                ;
                assert forall|yy: int, xx: int, cc: int|
                    0 <= yy <= y && 0 <= xx < width && 0 <= cc < 3 && (yy < y || xx < x + 1)
                        implies #[trigger] dst@[pix(yy, xx, cc, width * 3, 3)] == src@[pix(
                        yy,
                        xx,
                        source_byte(conv, cc),
                        stride as int,
                        bpp as int,
                    )] by {
                    if yy < y || xx < x {
                        lemma_pixel_before(yy, xx, cc, y as int, x as int, 0, width as int, 3);
                        assert(dst@[pix(yy, xx, cc, width * 3, 3)] == prev[pix(yy, xx, cc, width * 3, 3)]);
                    } else {
                        assert(pix(yy, xx, cc, width * 3, 3) == dst_off + cc);
                        assert(dst@[dst_off + cc] == src@[src_off + source_byte(conv, cc)]);
                        assert(pix(yy, xx, source_byte(conv, cc), stride as int, bpp as int) == src_off + source_byte(conv, cc));
                    }
                }
            }
            x = x + 1;
        }
        proof {
            assert(pix(y as int, width as int, 0, width * 3, 3) == pix((y + 1) as int, 0, 0, width * 3, 3)) by (nonlinear_arith);
        }
        y = y + 1;
    }
    proof {
        assert(pix(height as int, 0, 0, width * 3, 3) == width * 3 * height) by (nonlinear_arith);
    }
}

} // verus!
verus! {

/// What a packed decoder can find wrong with its input or output buffer.
#[derive(Debug, Clone, Copy, PartialEq, Eq, Structural)]
pub enum DecodeFailure {
    MissingPlane,
    StrideOverflow,
    PlaneTooShort,
    OutputOverflow,
    DstTooShort,
}

/// The message a packed decoder gives for each failure.
pub open spec fn failure_text(conv: PackedConversion, f: DecodeFailure) -> &'static str {
    match conv {
        PackedConversion::BgrToRgb => match f {
            DecodeFailure::MissingPlane => "bgr frame missing plane",
            DecodeFailure::StrideOverflow => "bgr stride overflow",
            DecodeFailure::PlaneTooShort => "bgr plane buffer too short",
            DecodeFailure::OutputOverflow => "bgr output overflow",
            DecodeFailure::DstTooShort => "bgr dst buffer too short",
        },
        PackedConversion::BgraToRgb => match f {
            DecodeFailure::MissingPlane => "bgra frame missing plane",
            DecodeFailure::StrideOverflow => "bgra stride overflow",
            DecodeFailure::PlaneTooShort => "bgra plane buffer too short",
            DecodeFailure::OutputOverflow => "bgra output overflow",
            DecodeFailure::DstTooShort => "bgra dst buffer too short",
        },
        PackedConversion::Mono8ToRgb => match f {
            DecodeFailure::MissingPlane => "mono frame missing plane",
            DecodeFailure::StrideOverflow => "mono stride overflow",
            DecodeFailure::PlaneTooShort => "mono plane buffer too short",
            DecodeFailure::OutputOverflow => "mono output overflow",
            DecodeFailure::DstTooShort => "mono dst buffer too short",
        },
        PackedConversion::Mono16ToRgb => match f {
            DecodeFailure::MissingPlane => "mono16 frame missing plane",
            DecodeFailure::StrideOverflow => "mono16 stride overflow",
            DecodeFailure::PlaneTooShort => "mono16 plane buffer too short",
            DecodeFailure::OutputOverflow => "mono16 output overflow",
            DecodeFailure::DstTooShort => "mono16 dst buffer too short",
        },
        PackedConversion::Rgb48ToRgb { .. } => match f {
            DecodeFailure::MissingPlane => "rgb48 frame missing plane",
            DecodeFailure::StrideOverflow => "rgb48 stride overflow",
            DecodeFailure::PlaneTooShort => "rgb48 plane buffer too short",
            DecodeFailure::OutputOverflow => "rgb48 output overflow",
            DecodeFailure::DstTooShort => "rgb48 dst buffer too short",
        },
    }
}

fn failure_message(conv: PackedConversion, f: DecodeFailure) -> (r: String)
    ensures
        r@ == failure_text(conv, f)@,
{
    let text: &str = match conv {
        PackedConversion::BgrToRgb => match f {
            DecodeFailure::MissingPlane => "bgr frame missing plane",
            DecodeFailure::StrideOverflow => "bgr stride overflow",
            DecodeFailure::PlaneTooShort => "bgr plane buffer too short",
            DecodeFailure::OutputOverflow => "bgr output overflow",
            DecodeFailure::DstTooShort => "bgr dst buffer too short",
        },
        PackedConversion::BgraToRgb => match f {
            DecodeFailure::MissingPlane => "bgra frame missing plane",
            DecodeFailure::StrideOverflow => "bgra stride overflow",
            DecodeFailure::PlaneTooShort => "bgra plane buffer too short",
            DecodeFailure::OutputOverflow => "bgra output overflow",
            DecodeFailure::DstTooShort => "bgra dst buffer too short",
        },
        PackedConversion::Mono8ToRgb => match f {
            DecodeFailure::MissingPlane => "mono frame missing plane",
            DecodeFailure::StrideOverflow => "mono stride overflow",
            DecodeFailure::PlaneTooShort => "mono plane buffer too short",
            DecodeFailure::OutputOverflow => "mono output overflow",
            DecodeFailure::DstTooShort => "mono dst buffer too short",
        },
        PackedConversion::Mono16ToRgb => match f {
            DecodeFailure::MissingPlane => "mono16 frame missing plane",
            DecodeFailure::StrideOverflow => "mono16 stride overflow",
            DecodeFailure::PlaneTooShort => "mono16 plane buffer too short",
            DecodeFailure::OutputOverflow => "mono16 output overflow",
            DecodeFailure::DstTooShort => "mono16 dst buffer too short",
        },
        PackedConversion::Rgb48ToRgb { .. } => match f {
            DecodeFailure::MissingPlane => "rgb48 frame missing plane",
            DecodeFailure::StrideOverflow => "rgb48 stride overflow",
            DecodeFailure::PlaneTooShort => "rgb48 plane buffer too short",
            DecodeFailure::OutputOverflow => "rgb48 output overflow",
            DecodeFailure::DstTooShort => "rgb48 dst buffer too short",
        },
    };
    text.to_owned()
}

/// The stride a packed decoder reads with: the plane's, widened to at least
/// one full row of input pixels.
pub open spec fn read_stride(conv: PackedConversion, plane_stride: int, width: int) -> int {
    if plane_stride >= width * in_bpp(conv) {
        plane_stride
    } else {
        width * in_bpp(conv)
    }
}

/// The first thing wrong with a packed decode whose input code matched.
pub open spec fn packed_failure(conv: PackedConversion, meta: FrameMeta, planes: Seq<Plane>, dst_len: int) -> Option<DecodeFailure> {
    let w = meta.format.resolution.width@ as int;
    let h = meta.format.resolution.height@ as int;
    if planes.len() == 0 {
        Some(DecodeFailure::MissingPlane)
    } else {
        let stride = read_stride(conv, planes[0].pitch() as int, w);
        if stride * h > usize::MAX {
            Some(DecodeFailure::StrideOverflow)
        } else if planes[0].bytes().len() < stride * h {
            Some(DecodeFailure::PlaneTooShort)
        } else if w * 3 * h > usize::MAX {
            Some(DecodeFailure::OutputOverflow)
        } else if dst_len < w * 3 * h {
            Some(DecodeFailure::DstTooShort)
        } else {
            None
        }
    }
}

/// Metadata of a decoded frame: the output code at the input's resolution,
/// color and timestamp, nothing else set.
pub open spec fn decoded_meta(m: FrameMeta, input: FrameMeta, output: FourCc) -> bool {
    &&& m.format.code == output
    &&& m.format.resolution == input.format.resolution
    &&& m.format.color == input.format.color
    &&& m.timestamp == input.timestamp
    &&& m.backend is None
    &&& m.capture_instant is None
    &&& m.residency is None
    &&& m.last_transition is None
    &&& m.mutability == crate::meta::FrameMutability::Mutable
}

/// Decode the first plane of a packed frame into a caller-provided tightly
/// packed RGB24 buffer.
///
/// The frame's code must be `input`; the plane must hold `height` rows at
/// the read stride; `dst` must hold `width * 3 * height` bytes, of which
/// exactly those are written.
pub fn decode_packed_into(
    conv: PackedConversion,
    input: FourCc,
    output: FourCc,
    meta: &FrameMeta,
    planes: &Vec<Plane>,
    dst: &mut [u8],
) -> (r: Result<FrameMeta, CodecError>)
    requires
        meta.format.resolution.width@ * 6 <= usize::MAX,
    ensures
        meta.format.code != input ==> (r matches Err(CodecError::FormatMismatch { expected, actual })
            && expected == input && actual == meta.format.code) && final(dst)@ == old(dst)@,
        meta.format.code == input && packed_failure(conv, *meta, planes@, old(dst)@.len() as int)
            is Some ==> (r matches Err(CodecError::Codec(s)) && s@ == failure_text(
            conv,
            packed_failure(conv, *meta, planes@, old(dst)@.len() as int)->Some_0,
        )@) && final(dst)@ == old(dst)@,
        meta.format.code == input && packed_failure(conv, *meta, planes@, old(dst)@.len() as int)
            is None ==> ({
            let w = meta.format.resolution.width@ as int;
            let h = meta.format.resolution.height@ as int;
            &&& r matches Ok(m) && decoded_meta(m, *meta, output)
            &&& final(dst)@.len() == old(dst)@.len()
            &&& converted(
                conv,
                planes@[0].bytes(),
                read_stride(conv, planes@[0].pitch() as int, w),
                w,
                h,
                final(dst)@,
            )
            &&& forall|p: int|
                w * 3 * h <= p < old(dst)@.len() ==> #[trigger] final(dst)@[p] == old(dst)@[p]
        }),
{
    if meta.format.code != input {
        return Err(CodecError::FormatMismatch { expected: input, actual: meta.format.code });
    }
    if planes.len() == 0 {
        return Err(CodecError::Codec(failure_message(conv, DecodeFailure::MissingPlane)));
    }
    let plane = planes[0];
    let width = meta.format.resolution.width.get() as usize;
    let height = meta.format.resolution.height.get() as usize;
    let bpp = input_bytes_per_pixel(conv);
    proof {
        assert(width * bpp <= width * 6) by (nonlinear_arith)
            requires
                bpp <= 6,
        ;
    }
    let min_row = width * bpp;
    let stride = if plane.stride() >= min_row {
        plane.stride()
    } else {
        min_row
    };
    let required = match stride.checked_mul(height) {
        Some(n) => n,
        None => return Err(CodecError::Codec(failure_message(conv, DecodeFailure::StrideOverflow))),
    };
    let data = plane.data();
    if data.len() < required {
        return Err(CodecError::Codec(failure_message(conv, DecodeFailure::PlaneTooShort)));
    }
    let row_bytes = width * 3;
    let out_len = match row_bytes.checked_mul(height) {
        Some(n) => n,
        None => return Err(CodecError::Codec(failure_message(conv, DecodeFailure::OutputOverflow))),
    };
    if dst.len() < out_len {
        return Err(CodecError::Codec(failure_message(conv, DecodeFailure::DstTooShort)));
    }
    convert_packed_rows(conv, data, stride, width, height, dst);
    Ok(FrameMeta::new(MediaFormat::new(output, meta.format.resolution, meta.format.color), meta.timestamp))
}

} // verus!
