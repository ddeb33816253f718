//! The decisions of an FFmpeg encoder session: the picture size it
//! encodes, when its context must be opened anew, what the context is
//! opened with, the frames that probe a memory-to-memory encoder, and the
//! metadata of an encoded packet.
use vstd::prelude::*;

use crate::av::{encoder_pixel_format, pick_encoder_pixel_format, pixel_format_for_fourcc, pixel_format_of, AvPixelFormat};
use crate::format::{FourCc, MediaFormat, Resolution};
use crate::frame::{sat_mul, saturating_mul, PlaneLayout};
use crate::decoder::{ReceiveStatus, SendStatus};
use crate::meta::{FrameMeta, FrameMutability};

verus! {

/// Bitrate an encoder is configured with unless told otherwise.
pub const DEFAULT_ENCODER_BITRATE: u64 = 20_000_000;

/// Basic tuning knobs for FFmpeg encoders.
#[derive(Debug, Clone, Copy)]
pub struct FfmpegEncoderOptions {
    pub bitrate: u64,
    pub gop: Option<i32>,
    /// Frame rate as (numerator, denominator) frames per second.
    pub framerate: Option<(u32, u32)>,
    pub thread_count: Option<usize>,
    pub pool_limits: Option<(usize, usize, usize)>,
    pub output_resolution: Option<Resolution>,
}

impl Default for FfmpegEncoderOptions {
    fn default() -> (r: Self)
        ensures
            r.bitrate == DEFAULT_ENCODER_BITRATE,
            r.gop is None,
            r.framerate is None,
            r.thread_count is None,
            r.pool_limits is None,
            r.output_resolution is None,
    {
        FfmpegEncoderOptions {
            bitrate: DEFAULT_ENCODER_BITRATE,
            gop: None,
            framerate: None,
            thread_count: None,
            pool_limits: None,
            output_resolution: None,
        }
    }
}

/// The picture size encoded from a `width` by `height` input: the
/// configured output resolution, else the input's.
pub open spec fn target_size(opts: FfmpegEncoderOptions, width: u32, height: u32) -> (u32, u32) {
    match opts.output_resolution {
        Some(res) => (res.width@, res.height@),
        None => (width, height),
    }
}

/// The picture size encoded from a `width` by `height` input.
pub fn target_resolution(opts: &FfmpegEncoderOptions, width: u32, height: u32) -> (r: (u32, u32))
    ensures
        r == target_size(*opts, width, height),
{
    match opts.output_resolution {
        Some(res) => (res.width.get(), res.height.get()),
        None => (width, height),
    }
}

/// A bitrate as FFmpeg takes it: clamped to the largest `usize`.
pub open spec fn bit_rate_of(bitrate: u64) -> usize {
    if bitrate <= usize::MAX {
        bitrate as usize
    } else {
        usize::MAX
    }
}

/// A group-of-pictures length as FFmpeg takes it: a negative one reads as
/// the largest `u32`.
pub open spec fn gop_of(gop: i32) -> u32 {
    if gop >= 0 {
        gop as u32
    } else {
        u32::MAX
    }
}

fn bit_rate(bitrate: u64) -> (r: usize)
    ensures
        r == bit_rate_of(bitrate),
{
    if bitrate <= usize::MAX as u64 {
        bitrate as usize
    } else {
        usize::MAX
    }
}

fn gop_setting(gop: i32) -> (r: u32)
    ensures
        r == gop_of(gop),
{
    if gop >= 0 {
        gop as u32
    } else {
        u32::MAX
    }
}

impl FfmpegEncoderOptions {
    /// The options with a new bitrate; a zero bitrate leaves them as they are.
    pub fn with_bitrate(self, bitrate: u64) -> (r: Self)
        ensures
            r.bitrate == if bitrate == 0 {
                self.bitrate
            } else {
                bitrate
            },
            r.gop == self.gop && r.framerate == self.framerate && r.thread_count == self.thread_count,
            r.pool_limits == self.pool_limits && r.output_resolution == self.output_resolution,
    {
        if bitrate == 0 {
            self
        } else {
            FfmpegEncoderOptions { bitrate, ..self }
        }
    }
}

/// What an encoder's open context is keyed by: the input's pixel format
/// and size and the encoded size.
#[derive(Debug, Clone, Copy, PartialEq, Eq, Structural)]
pub struct EncoderGeometry {
    pub src_format: AvPixelFormat,
    pub src_width: u32,
    pub src_height: u32,
    pub dst_width: u32,
    pub dst_height: u32,
}

/// What an encoder context is opened with.
#[derive(Debug, Clone, Copy, PartialEq, Eq)]
pub struct EncoderSettings {
    pub width: u32,
    pub height: u32,
    pub format: AvPixelFormat,
    /// Seconds per tick, as (numerator, denominator).
    pub time_base: (i32, i32),
    /// Frames per second, as (numerator, denominator).
    pub frame_rate: (i32, i32),
    pub bit_rate: usize,
    pub max_b_frames: u32,
    pub gop: u32,
    pub threads: Option<usize>,
}

/// The settings of a context encoding `width` by `height` pictures in
/// `format`: the configured frame rate (its inverse as time base), else
/// 120 frames per second; the bitrate clamped; no B-frames; the configured
/// GOP, else 120 pictures (one second at the default rate).
pub open spec fn settings_for(opts: FfmpegEncoderOptions, width: u32, height: u32, format: AvPixelFormat) -> EncoderSettings {
    EncoderSettings {
        width,
        height,
        format,
        time_base: match opts.framerate {
            Some((num, den)) => (den as i32, num as i32),
            None => (1, 120),
        },
        frame_rate: match opts.framerate {
            Some((num, den)) => (num as i32, den as i32),
            None => (120, 1),
        },
        bit_rate: bit_rate_of(opts.bitrate),
        max_b_frames: 0,
        gop: match opts.gop {
            Some(g) => gop_of(g),
            None => 120,
        },
        threads: opts.thread_count,
    }
}

/// The settings of a context encoding `width` by `height` pictures in `format`.
pub fn encoder_settings(opts: &FfmpegEncoderOptions, width: u32, height: u32, format: AvPixelFormat) -> (r: EncoderSettings)
    ensures
        r == settings_for(*opts, width, height, format),
{
    let (time_base, frame_rate) = match opts.framerate {
        Some((num, den)) => ((den as i32, num as i32), (num as i32, den as i32)),
        None => ((1i32, 120i32), (120i32, 1i32)),
    };
    let gop = match opts.gop {
        Some(g) => gop_setting(g),
        None => 120,
    };
    EncoderSettings {
        width,
        height,
        format,
        time_base,
        frame_rate,
        bit_rate: bit_rate(opts.bitrate),
        max_b_frames: 0,
        gop,
        threads: opts.thread_count,
    }
}

/// What to do with an encoder's context before a frame is pushed.
#[derive(Debug, Clone, Copy, PartialEq, Eq)]
pub enum EncoderPlan {
    /// The open context fits the frame.
    Keep,
    /// Open a context with these settings for this geometry, converting the
    /// input through a scaler where `scaler` is set.
    Open { geometry: EncoderGeometry, settings: EncoderSettings, scaler: bool },
}

/// Why an encoder cannot take a frame.
#[derive(Debug, Clone, Copy, PartialEq, Eq, Structural)]
pub enum EncoderPlanError {
    /// The encoder's input code has no FFmpeg pixel format.
    UnsupportedInput(FourCc),
    /// The codec offers no pixel format to feed it.
    NoPixelFormat,
}

/// The plan for a frame of `src_width` by `src_height` in the encoder's
/// `input` code, given the geometry of the context that is open, if any:
/// an input code without a pixel format fails; a context of the same
/// geometry is kept; else one is opened for the target size in the pixel
/// format the codec is fed, with a scaler where format or size differ.
pub open spec fn encoder_plan(
    input: FourCc,
    output: FourCc,
    is_video: bool,
    supported: Seq<AvPixelFormat>,
    opts: FfmpegEncoderOptions,
    current: Option<EncoderGeometry>,
    src_width: u32,
    src_height: u32,
) -> Result<EncoderPlan, EncoderPlanError> {
    match pixel_format_of(input) {
        None => Err(EncoderPlanError::UnsupportedInput(input)),
        Some(src_format) => {
            let (dw, dh) = target_size(opts, src_width, src_height);
            let geometry = EncoderGeometry {
                src_format,
                src_width,
                src_height,
                dst_width: dw,
                dst_height: dh,
            };
            if current == Some(geometry) {
                Ok(EncoderPlan::Keep)
            } else {
                match encoder_pixel_format(output, src_format, is_video, supported) {
                    None => Err(EncoderPlanError::NoPixelFormat),
                    Some(dst_format) => Ok(
                        EncoderPlan::Open {
                            geometry,
                            settings: settings_for(opts, dw, dh, dst_format),
                            scaler: src_format != dst_format || src_width != dw || src_height != dh,
                        },
                    ),
                }
            }
        },
    }
}

/// Decide what an encoder does with its context before taking a frame.
pub fn plan_encoder(
    input: FourCc,
    output: FourCc,
    is_video: bool,
    supported: &[AvPixelFormat],
    opts: &FfmpegEncoderOptions,
    current: Option<EncoderGeometry>,
    src_width: u32,
    src_height: u32,
) -> (r: Result<EncoderPlan, EncoderPlanError>)
    ensures
        r == encoder_plan(input, output, is_video, supported@, *opts, current, src_width, src_height),
{
    let src_format = match pixel_format_for_fourcc(input) {
        Some(f) => f,
        None => return Err(EncoderPlanError::UnsupportedInput(input)),
    };
    let (dst_width, dst_height) = target_resolution(opts, src_width, src_height);
    let geometry = EncoderGeometry { src_format, src_width, src_height, dst_width, dst_height };
    let same = match current {
        Some(g) => g == geometry,
        None => false,
    };
    if same {
        return Ok(EncoderPlan::Keep);
    }
    let dst_format = match pick_encoder_pixel_format(output, src_format, is_video, supported) {
        Some(f) => f,
        None => return Err(EncoderPlanError::NoPixelFormat),
    };
    let settings = encoder_settings(opts, dst_width, dst_height, dst_format);
    let scaler = src_format != dst_format || src_width != dst_width || src_height != dst_height;
    Ok(EncoderPlan::Open { geometry, settings, scaler })
}

/// The sizes a memory-to-memory encoder is probed at, in order.
pub fn probe_sizes() -> (r: [(u32, u32); 2])
    ensures
        r@ == seq![(640u32, 480u32), (1280u32, 720u32)],
{
    let r = [(640u32, 480u32), (1280u32, 720u32)];
    assert(r@ =~= seq![(640u32, 480u32), (1280u32, 720u32)]);
    r
}

/// The zeroed planes of a probe frame of `width` by `height` in `input`:
/// one RGB plane of three bytes a pixel, or an NV12 luma plane and a
/// chroma plane of half its bytes, each `width` bytes a row; lengths
/// saturate.  Other codes are not probed.
pub open spec fn probe_layouts_of(input: FourCc, width: u32, height: u32) -> Option<Seq<PlaneLayout>> {
    if input == FourCc::RG24 {
        let len = sat_mul(sat_mul(width as int, height as int), 3);
        let stride = if sat_mul(width as int, 3) == 0 {
            1
        } else {
            sat_mul(width as int, 3)
        };
        Some(seq![PlaneLayout { offset: 0, len: len as usize, stride: stride as usize }])
    } else if input == FourCc::NV12 {
        let y_len = sat_mul(width as int, height as int);
        Some(
            seq![
                PlaneLayout { offset: 0, len: y_len as usize, stride: width as usize },
                PlaneLayout { offset: 0, len: (y_len / 2) as usize, stride: width as usize },
            ],
        )
    } else {
        None
    }
}

/// The planes of a probe frame, or `None` for a code that is not probed.
pub fn probe_layouts(input: FourCc, width: u32, height: u32) -> (r: Option<Vec<PlaneLayout>>)
    ensures
        match r {
            Some(v) => probe_layouts_of(input, width, height) == Some(v@),
            None => probe_layouts_of(input, width, height) is None,
        },
{
    let w = width as usize;
    let h = height as usize;
    if input == FourCc::RG24 {
        let len = saturating_mul(saturating_mul(w, h), 3);
        let row = saturating_mul(w, 3);
        let stride = if row == 0 {
            1
        } else {
            row
        };
        let mut v: Vec<PlaneLayout> = Vec::new();
        v.push(PlaneLayout { offset: 0, len, stride });
        assert(v@ =~= seq![PlaneLayout { offset: 0, len, stride }]);
        Some(v)
    } else if input == FourCc::NV12 {
        let y_len = saturating_mul(w, h);
        let mut v: Vec<PlaneLayout> = Vec::new();
        v.push(PlaneLayout { offset: 0, len: y_len, stride: w });
        v.push(PlaneLayout { offset: 0, len: y_len / 2, stride: w });
        assert(v@ =~= seq![
            PlaneLayout { offset: 0, len: y_len, stride: w },
            PlaneLayout { offset: 0, len: y_len / 2, stride: w },
        ]);
        Some(v)
    } else {
        None
    }
}

/// The metadata of a packet encoded from a frame with metadata `meta`:
/// the encoder's `output` code at the encoded size (the input's where that
/// size has a zero side), the input's color space and timestamp.
pub fn packet_meta(meta: &FrameMeta, output: FourCc, dst_width: u32, dst_height: u32) -> (r: FrameMeta)
    ensures
        r.format.code == output,
        dst_width != 0 && dst_height != 0 ==> r.format.resolution.width@ == dst_width
            && r.format.resolution.height@ == dst_height,
        dst_width == 0 || dst_height == 0 ==> r.format.resolution == meta.format.resolution,
        r.format.color == meta.format.color,
        r.timestamp == meta.timestamp,
        r.backend is None,
        r.capture_instant is None,
        r.residency is None,
        r.mutability == FrameMutability::Mutable,
        r.last_transition is None,
{
    let resolution = match Resolution::new(dst_width, dst_height) {
        Some(res) => res,
        None => meta.format.resolution,
    };
    FrameMeta::new(MediaFormat::new(output, resolution, meta.format.color), meta.timestamp)
}

/// A context opened for a frame is kept for the next frame of the same
/// code and size under the same options.
pub proof fn lemma_opened_context_is_kept(
    input: FourCc,
    output: FourCc,
    is_video: bool,
    supported: Seq<AvPixelFormat>,
    opts: FfmpegEncoderOptions,
    current: Option<EncoderGeometry>,
    src_width: u32,
    src_height: u32,
    geometry: EncoderGeometry,
    settings: EncoderSettings,
    scaler: bool,
)
    requires
        encoder_plan(input, output, is_video, supported, opts, current, src_width, src_height) == Ok::<
            EncoderPlan,
            EncoderPlanError,
        >(EncoderPlan::Open { geometry, settings, scaler }),
    ensures
        encoder_plan(input, output, is_video, supported, opts, Some(geometry), src_width, src_height) == Ok::<
            EncoderPlan,
            EncoderPlanError,
        >(EncoderPlan::Keep),
{
}

/// What an encoder does after handing FFmpeg a picture.
#[derive(Debug, Clone, Copy, PartialEq, Eq, Structural)]
pub enum EncoderAfterSend {
    /// Take the encoded packets.
    Drain,
    /// Take the encoded packets, hand the picture again (a second refusal
    /// fails), then take the packets.
    DrainThenResend,
    /// Fail the encode.
    Fail,
}

/// What an encoder does after handing FFmpeg a picture.
pub fn encoder_after_send(status: SendStatus) -> (r: EncoderAfterSend)
    ensures
        r == match status {
            SendStatus::Accepted => EncoderAfterSend::Drain,
            SendStatus::Again => EncoderAfterSend::DrainThenResend,
            SendStatus::Failed => EncoderAfterSend::Fail,
        },
{
    match status {
        SendStatus::Accepted => EncoderAfterSend::Drain,
        SendStatus::Again => EncoderAfterSend::DrainThenResend,
        SendStatus::Failed => EncoderAfterSend::Fail,
    }
}

/// What an encoder does with each answer while taking packets.
#[derive(Debug, Clone, Copy, PartialEq, Eq, Structural)]
pub enum EncoderAfterReceive {
    /// Queue the packet's bytes and ask again.
    Queue,
    /// Stop taking packets.
    Stop,
    /// Fail the encode.
    Fail,
}

/// What an encoder does with an answer while taking packets: a packet
/// without data, or a failure, fails the encode.
pub fn encoder_after_receive(status: ReceiveStatus, has_data: bool) -> (r: EncoderAfterReceive)
    ensures
        r == match status {
            ReceiveStatus::Got => if has_data {
                EncoderAfterReceive::Queue
            } else {
                EncoderAfterReceive::Fail
            },
            ReceiveStatus::Again | ReceiveStatus::Eof => EncoderAfterReceive::Stop,
            ReceiveStatus::Failed => EncoderAfterReceive::Fail,
        },
{
    match status {
        ReceiveStatus::Got => if has_data {
            EncoderAfterReceive::Queue
        } else {
            EncoderAfterReceive::Fail
        },
        ReceiveStatus::Again | ReceiveStatus::Eof => EncoderAfterReceive::Stop,
        ReceiveStatus::Failed => EncoderAfterReceive::Fail,
    }
}

/// The presentation timestamp of the next picture an encoder is handed,
/// and the one after it: each picture takes the next, saturating.
pub fn next_pts(pts: u64) -> (r: (u64, u64))
    ensures
        r.0 == pts,
        r.1 == if pts == u64::MAX {
            u64::MAX
        } else {
            (pts + 1) as u64
        },
{
    (pts, pts.saturating_add(1))
}

} // verus!
