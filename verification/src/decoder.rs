//! The decisions of an FFmpeg decoder session around each decoded picture:
//! its timestamp, whether it is handed out as it is or copied into a packed
//! buffer, the rows of that copy, and the planes of an imported DRM PRIME
//! frame.
use vstd::prelude::*;

use crate::av::{
    av_bytes_per_pixel, bytes_per_pixel, copy_row, fourcc_for_pixel_format, fourcc_of_pixel_format, pixel_format_for_fourcc,
    pixel_format_of, AvPixelFormat, DrmPrimeDescriptor,
};
use crate::format::FourCc;
use crate::frame::{sat_mul, saturating_mul, PlaneLayout};
use crate::raw::CodecError;

verus! {

/// Bytes of each buffer a codec's pool hands out unless configured.
pub const DEFAULT_CODEC_POOL_CHUNK_BYTES: usize = 65536;

/// Buffers a codec's pool keeps for reuse unless configured.
pub const DEFAULT_CODEC_POOL_SPARE: usize = 4;

/// The chunk size and spare count of a decoder's buffer pool, from the
/// configured (minimum, chunk size, spare) limits or the defaults.
pub fn decoder_pool_limits(limits: Option<(usize, usize, usize)>) -> (r: (usize, usize))
    ensures
        r == match limits {
            Some((_, max, spare)) => (max, spare),
            None => (DEFAULT_CODEC_POOL_CHUNK_BYTES, DEFAULT_CODEC_POOL_SPARE),
        },
{
    match limits {
        Some((_, max, spare)) => (max, spare),
        None => (DEFAULT_CODEC_POOL_CHUNK_BYTES, DEFAULT_CODEC_POOL_SPARE),
    }
}

/// The timestamp of a decoded picture: its own, negative ones read as 0,
/// else that of the packet it came from.
pub open spec fn picture_timestamp(own: Option<i64>, packet: u64) -> u64 {
    match own {
        Some(t) => if t >= 0 {
            t as u64
        } else {
            0
        },
        None => packet,
    }
}

/// The timestamp of a decoded picture.
pub fn frame_timestamp(own: Option<i64>, packet: u64) -> (r: u64)
    ensures
        r == picture_timestamp(own, packet),
{
    match own {
        Some(t) => if t >= 0 {
            t as u64
        } else {
            0
        },
        None => packet,
    }
}

/// How a decoded picture becomes a frame.
#[derive(Debug, Clone, Copy, PartialEq, Eq, Structural)]
pub enum DecodedPlan {
    /// Import the DRM PRIME frame as it is.
    DrmPrime,
    /// Hand out FFmpeg's picture, converted to `format` first where
    /// `convert` is set, as a frame of code `code`.
    External { format: AvPixelFormat, code: FourCc, convert: bool },
    /// Copy the picture, converted to `format` first where `convert` is
    /// set, into a packed buffer of `len` bytes, `row_len` bytes a row.
    Packed { format: AvPixelFormat, convert: bool, row_len: usize, len: usize },
}

/// Why a decoded picture cannot become a frame.
#[derive(Debug, Clone, Copy, PartialEq, Eq, Structural)]
pub enum DecodedFailure {
    /// The picture has a zero side.
    InvalidResolution,
    /// The decoder's output code has no FFmpeg pixel format.
    UnsupportedOutput,
    /// The pixel format has no frame code.
    UnsupportedPixelFormat(AvPixelFormat),
    /// The picture's code is not the decoder's output.
    Mismatch { expected: FourCc, actual: FourCc },
    /// The output pixel format is not a packed one.
    UnsupportedPacked,
}

/// The plan for a `width` by `height` picture FFmpeg hands back in
/// `frame_format`, for a decoder producing `output`: a picture with a
/// zero side fails; a zero-copy decoder imports DRM PRIME pictures as
/// they are and hands out others in the output's pixel format; any other
/// decoder copies the picture, in the output's pixel format, into a packed
/// buffer.
pub open spec fn decoded_plan(
    zero_copy: bool,
    frame_format: AvPixelFormat,
    output: FourCc,
    width: u32,
    height: u32,
) -> Result<DecodedPlan, DecodedFailure> {
    if width == 0 || height == 0 {
        Err(DecodedFailure::InvalidResolution)
    } else if zero_copy && frame_format == AvPixelFormat::DrmPrime {
        Ok(DecodedPlan::DrmPrime)
    } else {
        match pixel_format_of(output) {
            None => Err(DecodedFailure::UnsupportedOutput),
            Some(target) => if zero_copy {
                match fourcc_of_pixel_format(target) {
                    None => Err(DecodedFailure::UnsupportedPixelFormat(target)),
                    Some(code) => if code != output {
                        Err(DecodedFailure::Mismatch { expected: output, actual: code })
                    } else {
                        Ok(DecodedPlan::External { format: target, code, convert: frame_format != target })
                    },
                }
            } else {
                match av_bytes_per_pixel(target) {
                    None => Err(DecodedFailure::UnsupportedPacked),
                    Some(bpp) => Ok(
                        DecodedPlan::Packed {
                            format: target,
                            convert: frame_format != target,
                            row_len: (width * bpp) as usize,
                            len: sat_mul(width * bpp, height as int) as usize,
                        },
                    ),
                }
            },
        }
    }
}

/// Decide how a decoded picture becomes a frame.
pub fn plan_decoded_frame(
    zero_copy: bool,
    frame_format: AvPixelFormat,
    output: FourCc,
    width: u32,
    height: u32,
) -> (r: Result<DecodedPlan, DecodedFailure>)
    requires
        4 * (width as int) <= usize::MAX,
    ensures
        r == decoded_plan(zero_copy, frame_format, output, width, height),
{
    if width == 0 || height == 0 {
        return Err(DecodedFailure::InvalidResolution);
    }
    if zero_copy && frame_format == AvPixelFormat::DrmPrime {
        return Ok(DecodedPlan::DrmPrime);
    }
    let target = match pixel_format_for_fourcc(output) {
        Some(t) => t,
        None => return Err(DecodedFailure::UnsupportedOutput),
    };
    if zero_copy {
        let code = match fourcc_for_pixel_format(target) {
            Some(c) => c,
            None => return Err(DecodedFailure::UnsupportedPixelFormat(target)),
        };
        if code != output {
            return Err(DecodedFailure::Mismatch { expected: output, actual: code });
        }
        return Ok(DecodedPlan::External { format: target, code, convert: frame_format != target });
    }
    let bpp = match bytes_per_pixel(target) {
        Some(b) => b,
        None => return Err(DecodedFailure::UnsupportedPacked),
    };
    let row_len = width as usize * bpp;
    let len = saturating_mul(row_len, height as usize);
    Ok(DecodedPlan::Packed { format: target, convert: frame_format != target, row_len, len })
}

/// `dst` after row `y` of each of the first `n` rows is copied where it
/// fits: `rb` bytes from byte `y * ss` of `src` to byte `y * rb` of `dst`;
/// a row that does not fit in either is left out.
pub open spec fn rows_packed(dst: Seq<u8>, src: Seq<u8>, ss: int, rb: int, n: int) -> Seq<u8>
    decreases n,
{
    if n <= 0 {
        dst
    } else {
        let d = rows_packed(dst, src, ss, rb, n - 1);
        let y = n - 1;
        if y * ss + rb <= src.len() && y * rb + rb <= d.len() {
            d.take(y * rb) + src.subrange(y * ss, y * ss + rb) + d.skip(y * rb + rb)
        } else {
            d
        }
    }
}

proof fn lemma_rows_packed_len(dst: Seq<u8>, src: Seq<u8>, ss: int, rb: int, n: int)
    requires
        ss >= 0,
        rb >= 0,
    ensures
        rows_packed(dst, src, ss, rb, n).len() == dst.len(),
    decreases n,
{
    if n > 0 {
        lemma_rows_packed_len(dst, src, ss, rb, n - 1);
        assert(0 <= (n - 1) * ss && 0 <= (n - 1) * rb) by (nonlinear_arith)
            requires
                n >= 1,
                ss >= 0,
                rb >= 0,
        ;
    }
}

/// Copy `rows` rows of `row_len` bytes, `stride` apart in `src`, into
/// `dst` packed one after another; a row that does not fit in either
/// buffer is left out.
pub fn pack_decoded_rows(src: &[u8], stride: usize, dst: &mut [u8], row_len: usize, rows: usize)
    requires
        rows > 0 ==> (rows - 1) * stride + row_len <= usize::MAX && rows * row_len <= usize::MAX,
    ensures
        final(dst)@ == rows_packed(old(dst)@, src@, stride as int, row_len as int, rows as int),
{
    let ghost start = dst@;
    let slen = src.len();
    let dlen = dst.len();
    let mut y: usize = 0;
    while y < rows
        invariant
            y <= rows,
            rows > 0 ==> (rows - 1) * stride + row_len <= usize::MAX && rows * row_len <= usize::MAX,
            slen == src@.len(),
            dlen == start.len(),
            start == old(dst)@,
            dst@ == rows_packed(start, src@, stride as int, row_len as int, y as int),
            dst@.len() == dlen,
        decreases rows - y,
    {
        assert(y * stride <= (rows - 1) * stride && y * row_len + row_len <= rows * row_len) by (nonlinear_arith)
            requires
                y < rows,
        ;
        let soff = y * stride;
        let doff = y * row_len;
        if soff + row_len <= slen && doff + row_len <= dlen {
            copy_row(src, soff, dst, doff, row_len);
        }
        proof {
            lemma_rows_packed_len(start, src@, stride as int, row_len as int, y + 1);
        }
        y = y + 1;
    }
}

/// The planes of an imported DRM PRIME frame for a decoder producing
/// `output`: each plane's offset, length and pitch, or a mismatch where the
/// frame's format is not the output.
pub fn drm_frame_layouts(desc: &DrmPrimeDescriptor, output: FourCc) -> (r: Result<Vec<PlaneLayout>, CodecError>)
    ensures
        desc.format != output ==> r == Err::<Vec<PlaneLayout>, CodecError>(
            CodecError::FormatMismatch { expected: output, actual: desc.format },
        ),
        desc.format == output ==> (r matches Ok(v) && v@.len() == desc.planes@.len() && forall|i: int|
            0 <= i < v@.len() ==> #[trigger] v@[i] == (PlaneLayout {
                offset: desc.planes@[i].offset,
                len: desc.planes@[i].len,
                stride: desc.planes@[i].stride,
            })),
{
    if desc.format != output {
        return Err(CodecError::FormatMismatch { expected: output, actual: desc.format });
    }
    let mut out: Vec<PlaneLayout> = Vec::new();
    let n = desc.planes.len();
    let mut i: usize = 0;
    while i < n
        invariant
            i <= n,
            n == desc.planes@.len(),
            out@.len() == i,
            forall|k: int|
                0 <= k < i ==> #[trigger] out@[k] == (PlaneLayout {
                    offset: desc.planes@[k].offset,
                    len: desc.planes@[k].len,
                    stride: desc.planes@[k].stride,
                }),
        decreases n - i,
    {
        let p = desc.planes[i];
        out.push(PlaneLayout { offset: p.offset, len: p.len, stride: p.stride });
        i = i + 1;
    }
    Ok(out)
}

/// The hardware device kinds a decoder's hardware configuration names.
#[derive(Debug, Clone, Copy, PartialEq, Eq, Structural)]
pub enum HwDeviceType {
    Drm,
    /// Any other kind, by its FFmpeg number.
    Other(i32),
}

/// One hardware configuration a decoder advertises: the setup methods it
/// takes (a bit set), its device kind and the pixel format it outputs.
#[derive(Debug, Clone, Copy, PartialEq, Eq, Structural)]
pub struct HwConfig {
    pub methods: i32,
    pub device_type: HwDeviceType,
    pub pix_fmt: AvPixelFormat,
}

/// The setup method of a configuration set up through a device context.
pub const HW_CONFIG_METHOD_DEVICE_CTX: i32 = 1;

/// The configuration outputs DRM PRIME pictures from a DRM device set up
/// through a device context.
pub open spec fn offers_drm_prime(c: HwConfig) -> bool {
    (c.methods & HW_CONFIG_METHOD_DEVICE_CTX) != 0 && c.device_type == HwDeviceType::Drm && c.pix_fmt
        == AvPixelFormat::DrmPrime
}

/// Whether a decoder advertising `configs` can output DRM PRIME pictures
/// from a DRM device context.
pub fn supports_drm_prime_device(configs: &[HwConfig]) -> (r: bool)
    ensures
        r == exists|i: int| 0 <= i < configs@.len() && offers_drm_prime(#[trigger] configs@[i]),
{
    let n = configs.len();
    let mut i: usize = 0;
    while i < n
        invariant
            i <= n,
            n == configs@.len(),
            forall|k: int| 0 <= k < i ==> !offers_drm_prime(#[trigger] configs@[k]),
        decreases n - i,
    {
        let c = configs[i];
        if (c.methods & HW_CONFIG_METHOD_DEVICE_CTX) != 0 && c.device_type == HwDeviceType::Drm && c.pix_fmt
            == AvPixelFormat::DrmPrime {
            assert(offers_drm_prime(configs@[i as int]));
            return true;
        }
        i = i + 1;
    }
    false
}

/// What FFmpeg answered when handed a packet or a picture.
#[derive(Debug, Clone, Copy, PartialEq, Eq, Structural)]
pub enum SendStatus {
    Accepted,
    /// Try again once output has been taken.
    Again,
    Failed,
}

/// What FFmpeg answered when asked for output.
#[derive(Debug, Clone, Copy, PartialEq, Eq, Structural)]
pub enum ReceiveStatus {
    /// Output was handed back.
    Got,
    /// No output until more input arrives.
    Again,
    /// The stream has ended.
    Eof,
    Failed,
}

/// What a decoder does after handing FFmpeg a packet.
#[derive(Debug, Clone, Copy, PartialEq, Eq, Structural)]
pub enum AfterSend {
    /// Take the decoded pictures.
    Drain,
    /// Take the decoded pictures, then hand the packet again; a second
    /// refusal fails the decode.
    DrainThenResend,
    /// Open a fresh decoder and hand it the packet; a refusal there fails
    /// the decode unless the decoder is tolerant, which then ends it
    /// without a picture.
    ResetThenRetry,
}

/// What a decoder does after handing FFmpeg a packet.
pub fn decoder_after_send(status: SendStatus) -> (r: AfterSend)
    ensures
        r == match status {
            SendStatus::Accepted => AfterSend::Drain,
            SendStatus::Again => AfterSend::DrainThenResend,
            SendStatus::Failed => AfterSend::ResetThenRetry,
        },
{
    match status {
        SendStatus::Accepted => AfterSend::Drain,
        SendStatus::Again => AfterSend::DrainThenResend,
        SendStatus::Failed => AfterSend::ResetThenRetry,
    }
}

/// What a decoder does with each answer while taking decoded pictures.
#[derive(Debug, Clone, Copy, PartialEq, Eq, Structural)]
pub enum AfterReceive {
    /// Turn the picture into a frame and ask again.
    Queue,
    /// Stop taking pictures.
    Stop,
    /// Open a fresh decoder and ask again.
    ResetAndContinue,
    /// Open a fresh decoder and fail the decode.
    ResetAndFail,
}

/// What a decoder does with an answer while taking decoded pictures: a
/// failure resets it, and fails the decode unless it is tolerant.
pub fn decoder_after_receive(status: ReceiveStatus, tolerant: bool) -> (r: AfterReceive)
    ensures
        r == match status {
            ReceiveStatus::Got => AfterReceive::Queue,
            ReceiveStatus::Again | ReceiveStatus::Eof => AfterReceive::Stop,
            ReceiveStatus::Failed => if tolerant {
                AfterReceive::ResetAndContinue
            } else {
                AfterReceive::ResetAndFail
            },
        },
{
    match status {
        ReceiveStatus::Got => AfterReceive::Queue,
        ReceiveStatus::Again | ReceiveStatus::Eof => AfterReceive::Stop,
        ReceiveStatus::Failed => if tolerant {
            AfterReceive::ResetAndContinue
        } else {
            AfterReceive::ResetAndFail
        },
    }
}

} // verus!
