//! The decisions around the FFmpeg codecs: which pixel format stands for
//! which code, the plane layouts of a decoded picture, the pixel format an
//! encoder is fed, the DRM PRIME format a decoder is steered to, and the
//! planes a DRM PRIME frame descriptor describes.
use vstd::prelude::*;

use crate::format::FourCc;
use crate::frame::{sat_mul, saturating_mul, PlaneLayout};
use crate::meta::FrameMeta;
use crate::raw::CodecError;
use crate::rows::Plane;

verus! {

/// The FFmpeg pixel formats this library deals with, by name; any other
/// by its FFmpeg number.
#[derive(Debug, Clone, Copy, PartialEq, Eq, Structural)]
pub enum AvPixelFormat {
    /// The end of a format list.
    NoFormat,
    Nv12,
    Yuv420p,
    Yuvj420p,
    Yuvj422p,
    Yuyv422,
    Rgb24,
    Bgr24,
    Rgba,
    Bgra,
    DrmPrime,
    Other(i32),
}

/// The FFmpeg pixel format of a frame code.
pub open spec fn pixel_format_of(code: FourCc) -> Option<AvPixelFormat> {
    match code {
        FourCc::NV12 => Some(AvPixelFormat::Nv12),
        FourCc::I420 => Some(AvPixelFormat::Yuv420p),
        FourCc::YUYV => Some(AvPixelFormat::Yuyv422),
        FourCc::RG24 => Some(AvPixelFormat::Rgb24),
        FourCc::RGBA => Some(AvPixelFormat::Rgba),
        FourCc::BGR3 => Some(AvPixelFormat::Bgr24),
        FourCc::BGRA => Some(AvPixelFormat::Bgra),
        _ => None,
    }
}

/// The FFmpeg pixel format a frame code is handed to FFmpeg as.
pub fn pixel_format_for_fourcc(code: FourCc) -> (r: Option<AvPixelFormat>)
    ensures
        r == pixel_format_of(code),
{
    match code {
        FourCc::NV12 => Some(AvPixelFormat::Nv12),
        FourCc::I420 => Some(AvPixelFormat::Yuv420p),
        FourCc::YUYV => Some(AvPixelFormat::Yuyv422),
        FourCc::RG24 => Some(AvPixelFormat::Rgb24),
        FourCc::RGBA => Some(AvPixelFormat::Rgba),
        FourCc::BGR3 => Some(AvPixelFormat::Bgr24),
        FourCc::BGRA => Some(AvPixelFormat::Bgra),
        _ => None,
    }
}

/// The frame code of an FFmpeg pixel format.
pub open spec fn fourcc_of_pixel_format(fmt: AvPixelFormat) -> Option<FourCc> {
    match fmt {
        AvPixelFormat::Nv12 => Some(FourCc::NV12),
        AvPixelFormat::Yuv420p | AvPixelFormat::Yuvj420p => Some(FourCc::I420),
        AvPixelFormat::Yuyv422 => Some(FourCc::YUYV),
        AvPixelFormat::Rgb24 => Some(FourCc::RG24),
        AvPixelFormat::Rgba => Some(FourCc::RGBA),
        AvPixelFormat::Bgr24 => Some(FourCc::BGR3),
        AvPixelFormat::Bgra => Some(FourCc::BGRA),
        _ => None,
    }
}

/// The frame code a picture FFmpeg hands back in this pixel format gets.
pub fn fourcc_for_pixel_format(fmt: AvPixelFormat) -> (r: Option<FourCc>)
    ensures
        r == fourcc_of_pixel_format(fmt),
{
    match fmt {
        AvPixelFormat::Nv12 => Some(FourCc::NV12),
        AvPixelFormat::Yuv420p | AvPixelFormat::Yuvj420p => Some(FourCc::I420),
        AvPixelFormat::Yuyv422 => Some(FourCc::YUYV),
        AvPixelFormat::Rgb24 => Some(FourCc::RG24),
        AvPixelFormat::Rgba => Some(FourCc::RGBA),
        AvPixelFormat::Bgr24 => Some(FourCc::BGR3),
        AvPixelFormat::Bgra => Some(FourCc::BGRA),
        _ => None,
    }
}

/// Bytes per pixel of the single-plane FFmpeg pixel formats.
pub open spec fn av_bytes_per_pixel(fmt: AvPixelFormat) -> Option<usize> {
    match fmt {
        AvPixelFormat::Rgb24 | AvPixelFormat::Bgr24 => Some(3),
        AvPixelFormat::Rgba | AvPixelFormat::Bgra => Some(4),
        AvPixelFormat::Yuyv422 => Some(2),
        _ => None,
    }
}

/// Bytes per pixel of a single-plane FFmpeg pixel format.
pub fn bytes_per_pixel(fmt: AvPixelFormat) -> (r: Option<usize>)
    ensures
        r == av_bytes_per_pixel(fmt),
{
    match fmt {
        AvPixelFormat::Rgb24 | AvPixelFormat::Bgr24 => Some(3),
        AvPixelFormat::Rgba | AvPixelFormat::Bgra => Some(4),
        AvPixelFormat::Yuyv422 => Some(2),
        _ => None,
    }
}

/// How many of an FFmpeg list's formats come before its terminating
/// `NoFormat`.
pub open spec fn listed_len(formats: Seq<AvPixelFormat>) -> int
    decreases formats.len(),
{
    if formats.len() == 0 || formats[0] == AvPixelFormat::NoFormat {
        0
    } else {
        1 + listed_len(formats.subrange(1, formats.len() as int))
    }
}

proof fn lemma_listed_len(formats: Seq<AvPixelFormat>)
    ensures
        0 <= listed_len(formats) <= formats.len(),
        forall|i: int| 0 <= i < listed_len(formats) ==> formats[i] != AvPixelFormat::NoFormat,
        listed_len(formats) < formats.len() ==> formats[listed_len(formats)] == AvPixelFormat::NoFormat,
    decreases formats.len(),
{
    if formats.len() == 0 || formats[0] == AvPixelFormat::NoFormat {
    } else {
        let rest = formats.subrange(1, formats.len() as int);
        lemma_listed_len(rest);
        assert forall|i: int| 0 <= i < listed_len(formats) implies formats[i] != AvPixelFormat::NoFormat by {
            if i > 0 {
                assert(formats[i] == rest[i - 1]);
            }
        }
        if listed_len(formats) < formats.len() {
            assert(formats[listed_len(formats)] == rest[listed_len(rest)]);
        }
    }
}

/// The format a decoder is steered to among those FFmpeg offers: DRM
/// PRIME where offered, else the first offered, else `NoFormat`.
pub open spec fn preferred_drm_format(formats: Seq<AvPixelFormat>) -> AvPixelFormat {
    let n = listed_len(formats);
    if exists|i: int| 0 <= i < n && formats[i] == AvPixelFormat::DrmPrime {
        AvPixelFormat::DrmPrime
    } else if n > 0 {
        formats[0]
    } else {
        AvPixelFormat::NoFormat
    }
}

/// Pick the pixel format of a decoder's output from the list FFmpeg
/// offers, which ends with `NoFormat`: DRM PRIME where it is offered, so that
/// frames stay in device memory, else FFmpeg's first choice.
pub fn prefer_drm_prime_format(formats: &[AvPixelFormat]) -> (r: AvPixelFormat)
    requires
        exists|i: int| 0 <= i < formats@.len() && formats@[i] == AvPixelFormat::NoFormat,
    ensures
        r == preferred_drm_format(formats@),
{
    proof {
        lemma_listed_len(formats@);
        let w = choose|i: int| 0 <= i < formats@.len() && formats@[i] == AvPixelFormat::NoFormat;
        assert(listed_len(formats@) <= w);
    }
    let ghost n = listed_len(formats@);
    let mut idx: usize = 0;
    let mut first = AvPixelFormat::NoFormat;
    loop
        invariant
            0 <= idx <= n,
            n < formats@.len(),
            n == listed_len(formats@),
            forall|i: int| 0 <= i < n ==> formats@[i] != AvPixelFormat::NoFormat,
            formats@[n] == AvPixelFormat::NoFormat,
            idx > 0 ==> first == formats@[0],
            idx == 0 ==> first == AvPixelFormat::NoFormat,
            forall|i: int| 0 <= i < idx ==> formats@[i] != AvPixelFormat::DrmPrime,
        decreases n - idx,
    {
        let fmt = formats[idx];
        if fmt == AvPixelFormat::NoFormat {
            return first;
        }
        if idx == 0 {
            first = fmt;
        }
        if fmt == AvPixelFormat::DrmPrime {
            return fmt;
        }
        idx = idx + 1;
    }
}

/// One memory object of a DRM PRIME frame: its file descriptor, size and
/// format modifier.
#[derive(Debug, Clone, Copy, PartialEq, Eq, Structural)]
pub struct AvDrmObjectDescriptor {
    pub fd: i32,
    pub size: usize,
    pub format_modifier: u64,
}

/// One plane of a DRM PRIME layer: the object it lies in, and its offset
/// and pitch there.
#[derive(Debug, Clone, Copy, PartialEq, Eq, Structural)]
pub struct AvDrmPlaneDescriptor {
    pub object_index: i32,
    pub offset: isize,
    pub pitch: isize,
}

/// One layer of a DRM PRIME frame: its DRM format and planes.
#[derive(Debug, Clone, Copy)]
pub struct AvDrmLayerDescriptor {
    pub format: u32,
    pub nb_planes: i32,
    pub planes: [AvDrmPlaneDescriptor; 4],
}

/// The descriptor FFmpeg hands out for a DRM PRIME frame.
#[derive(Debug, Clone, Copy)]
pub struct AvDrmFrameDescriptor {
    pub nb_objects: i32,
    pub objects: [AvDrmObjectDescriptor; 4],
    pub nb_layers: i32,
    pub layers: [AvDrmLayerDescriptor; 4],
}

/// One plane of a DRM PRIME frame as this library imports it.
#[derive(Debug, Clone, Copy, PartialEq, Eq, Structural)]
pub struct DrmPrimePlane {
    pub fd: i32,
    pub offset: usize,
    pub len: usize,
    pub stride: usize,
}

/// A DRM PRIME frame as this library imports it: its format, planes and
/// the bytes of all its objects.
#[derive(Debug, Clone)]
pub struct DrmPrimeDescriptor {
    pub format: FourCc,
    pub planes: Vec<DrmPrimePlane>,
    pub backing_bytes: usize,
}

/// What can be wrong with a DRM PRIME descriptor.
#[derive(Debug, Clone, Copy, PartialEq, Eq, Structural)]
pub enum DrmFailure {
    ObjectCount,
    LayerCount,
    PlaneCount,
    PlaneObject,
    PlaneLayout,
    PlaneOffset,
}

/// The message of each failure.
pub open spec fn drm_failure_text(f: DrmFailure) -> &'static str {
    match f {
        DrmFailure::ObjectCount => "ffmpeg DRM PRIME descriptor has invalid object count",
        DrmFailure::LayerCount => "ffmpeg DRM PRIME descriptor has invalid layer count",
        DrmFailure::PlaneCount => "ffmpeg DRM PRIME descriptor has invalid plane count",
        DrmFailure::PlaneObject => "ffmpeg DRM PRIME plane references invalid object",
        DrmFailure::PlaneLayout => "ffmpeg DRM PRIME plane has invalid layout",
        DrmFailure::PlaneOffset => "ffmpeg DRM PRIME plane offset exceeds object size",
    }
}

fn drm_failure_message(f: DrmFailure) -> (r: String)
    ensures
        r@ == drm_failure_text(f)@,
{
    let text: &str = match f {
        DrmFailure::ObjectCount => "ffmpeg DRM PRIME descriptor has invalid object count",
        DrmFailure::LayerCount => "ffmpeg DRM PRIME descriptor has invalid layer count",
        DrmFailure::PlaneCount => "ffmpeg DRM PRIME descriptor has invalid plane count",
        DrmFailure::PlaneObject => "ffmpeg DRM PRIME plane references invalid object",
        DrmFailure::PlaneLayout => "ffmpeg DRM PRIME plane has invalid layout",
        DrmFailure::PlaneOffset => "ffmpeg DRM PRIME plane offset exceeds object size",
    };
    text.to_owned()
}

/// What is wrong with one plane of the first layer.
pub open spec fn drm_plane_failure(desc: AvDrmFrameDescriptor, p: AvDrmPlaneDescriptor) -> Option<DrmFailure> {
    if p.object_index < 0 || p.object_index >= desc.nb_objects {
        Some(DrmFailure::PlaneObject)
    } else if p.offset < 0 || p.pitch <= 0 {
        Some(DrmFailure::PlaneLayout)
    } else if p.offset > desc.objects@[p.object_index as int].size {
        Some(DrmFailure::PlaneOffset)
    } else {
        None
    }
}

/// What is wrong with the first of the first `n` planes of a layer that
/// is wrong.
pub open spec fn first_plane_failure(desc: AvDrmFrameDescriptor, layer: AvDrmLayerDescriptor, n: int) -> Option<DrmFailure>
    decreases n,
{
    if n <= 0 {
        None
    } else {
        match first_plane_failure(desc, layer, n - 1) {
            Some(f) => Some(f),
            None => drm_plane_failure(desc, layer.planes@[n - 1]),
        }
    }
}

/// The first thing wrong with a DRM PRIME descriptor: counts out of
/// range, then the planes of the first layer in order.
pub open spec fn drm_failure(desc: AvDrmFrameDescriptor) -> Option<DrmFailure> {
    if desc.nb_objects <= 0 || desc.nb_objects > 4 {
        Some(DrmFailure::ObjectCount)
    } else if desc.nb_layers <= 0 || desc.nb_layers > 4 {
        Some(DrmFailure::LayerCount)
    } else {
        let layer = desc.layers@[0];
        if layer.nb_planes <= 0 || layer.nb_planes > 4 {
            Some(DrmFailure::PlaneCount)
        } else {
            first_plane_failure(desc, layer, layer.nb_planes as int)
        }
    }
}

/// `ceil(n / 2)`.
pub open spec fn half_up(n: int) -> int {
    n / 2 + n % 2
}

/// Rows of plane `index` of a DRM frame `height` rows high: the chroma
/// planes of NV12, NV21, YU12 and YV12 have half the rows.
pub open spec fn drm_rows(format: FourCc, index: int, height: int) -> int {
    match format {
        FourCc::NV12 | FourCc::NV21 => if index == 1 {
            half_up(height)
        } else {
            height
        },
        FourCc::YU12 | FourCc::YV12 => if index == 1 || index == 2 {
            half_up(height)
        } else {
            height
        },
        _ => height,
    }
}

/// Rows of plane `index` of a DRM frame `height` rows high.
pub fn drm_plane_height(format: FourCc, index: usize, height: usize) -> (r: usize)
    ensures
        r == drm_rows(format, index as int, height as int),
{
    let half = height / 2 + height % 2;
    match format {
        FourCc::NV12 | FourCc::NV21 => if index == 1 {
            half
        } else {
            height
        },
        FourCc::YU12 | FourCc::YV12 => if index == 1 || index == 2 {
            half
        } else {
            height
        },
        _ => height,
    }
}

/// The imported plane for plane `p` of a valid descriptor: its object's
/// descriptor, its offset and pitch, and the bytes of its rows (saturated)
/// or of the rest of its object, whichever is fewer.
pub open spec fn drm_plane_of(desc: AvDrmFrameDescriptor, format: FourCc, index: int, p: AvDrmPlaneDescriptor, height: int) -> DrmPrimePlane {
    let obj = desc.objects@[p.object_index as int];
    let estimated = sat_mul(p.pitch as int, drm_rows(format, index, height));
    let available = obj.size - p.offset;
    DrmPrimePlane {
        fd: obj.fd,
        offset: p.offset as usize,
        len: (if estimated <= available {
            estimated
        } else {
            available
        }) as usize,
        stride: p.pitch as usize,
    }
}

/// Total size of the first `n` objects.
pub open spec fn objects_size(desc: AvDrmFrameDescriptor, n: int) -> int
    decreases n,
{
    if n <= 0 {
        0
    } else {
        objects_size(desc, n - 1) + desc.objects@[n - 1].size
    }
}

proof fn lemma_failure_prefix(desc: AvDrmFrameDescriptor, layer: AvDrmLayerDescriptor, i: int, n: int)
    requires
        0 <= i <= n,
        first_plane_failure(desc, layer, n) is None,
    ensures
        first_plane_failure(desc, layer, i) is None,
        i < n ==> drm_plane_failure(desc, layer.planes@[i]) is None,
    decreases n,
{
    if i < n {
        lemma_failure_prefix(desc, layer, i, n - 1);
        if i < n - 1 {
            lemma_failure_prefix(desc, layer, i, n - 1);
        }
    }
}

proof fn lemma_failure_sticks(desc: AvDrmFrameDescriptor, layer: AvDrmLayerDescriptor, i: int, n: int)
    requires
        0 <= i <= n,
        first_plane_failure(desc, layer, i) is Some,
    ensures
        first_plane_failure(desc, layer, n) == first_plane_failure(desc, layer, i),
    decreases n - i,
{
    if i < n {
        lemma_failure_sticks(desc, layer, i, n - 1);
    }
}

proof fn lemma_objects_size_mono(desc: AvDrmFrameDescriptor, i: int, n: int)
    requires
        0 <= i <= n,
    ensures
        objects_size(desc, i) <= objects_size(desc, n),
    decreases n - i,
{
    if i < n {
        lemma_objects_size_mono(desc, i, n - 1);
    }
}

/// Import the DRM PRIME descriptor of a decoded frame `height` rows high:
/// its first layer's format and planes, each plane in the object it names
/// and no longer than the rest of that object, and the total size of its
/// objects.
pub fn drm_prime_descriptor_from_raw(desc: &AvDrmFrameDescriptor, height: usize) -> (r: Result<DrmPrimeDescriptor, CodecError>)
    requires
        drm_failure(*desc) is None ==> objects_size(*desc, desc.nb_objects as int) <= usize::MAX,
    ensures
        match drm_failure(*desc) {
            Some(f) => r matches Err(CodecError::Codec(s)) && s@ == drm_failure_text(f)@,
            None => r matches Ok(d) && {
                let layer = desc.layers@[0];
                &&& d.format@ == layer.format && d.format.well_formed()
                &&& d.planes@.len() == layer.nb_planes
                &&& forall|i: int|
                    0 <= i < layer.nb_planes ==> #[trigger] d.planes@[i] == drm_plane_of(
                        *desc,
                        d.format,
                        i,
                        layer.planes@[i],
                        height as int,
                    )
                &&& d.backing_bytes == objects_size(*desc, desc.nb_objects as int)
            },
        },
{
    if desc.nb_objects <= 0 || desc.nb_objects > 4 {
        return Err(CodecError::Codec(drm_failure_message(DrmFailure::ObjectCount)));
    }
    if desc.nb_layers <= 0 || desc.nb_layers > 4 {
        return Err(CodecError::Codec(drm_failure_message(DrmFailure::LayerCount)));
    }
    let layer = desc.layers[0];
    if layer.nb_planes <= 0 || layer.nb_planes > 4 {
        return Err(CodecError::Codec(drm_failure_message(DrmFailure::PlaneCount)));
    }
    let format = FourCc::from_u32(layer.format);
    let object_count = desc.nb_objects as usize;
    let plane_count = layer.nb_planes as usize;
    let mut planes: Vec<DrmPrimePlane> = Vec::new();
    let mut idx: usize = 0;
    while idx < plane_count
        invariant
            idx <= plane_count,
            plane_count == layer.nb_planes,
            1 <= plane_count <= 4,
            object_count == desc.nb_objects,
            1 <= object_count <= 4,
            layer == desc.layers@[0],
            1 <= desc.nb_layers <= 4,
            drm_failure(*desc) == first_plane_failure(*desc, layer, plane_count as int),
            format@ == layer.format,
            first_plane_failure(*desc, layer, idx as int) is None,
            planes@.len() == idx,
            forall|i: int|
                0 <= i < idx ==> #[trigger] planes@[i] == drm_plane_of(
                    *desc,
                    format,
                    i,
                    layer.planes@[i],
                    height as int,
                ),
        decreases plane_count - idx,
    {
        let plane = layer.planes[idx];
        assert(first_plane_failure(*desc, layer, idx + 1) == drm_plane_failure(*desc, plane));
        proof {
            if drm_plane_failure(*desc, plane) is Some {
                lemma_failure_sticks(*desc, layer, idx + 1, plane_count as int);
            }
        }
        if plane.object_index < 0 || plane.object_index as usize >= object_count {
            return Err(CodecError::Codec(drm_failure_message(DrmFailure::PlaneObject)));
        }
        if plane.offset < 0 || plane.pitch <= 0 {
            return Err(CodecError::Codec(drm_failure_message(DrmFailure::PlaneLayout)));
        }
        let object = desc.objects[plane.object_index as usize];
        let offset = plane.offset as usize;
        let stride = plane.pitch as usize;
        if offset > object.size {
            return Err(CodecError::Codec(drm_failure_message(DrmFailure::PlaneOffset)));
        }
        let estimated = saturating_mul(stride, drm_plane_height(format, idx, height));
        let available = object.size - offset;
        let len = if estimated <= available {
            estimated
        } else {
            available
        };
        planes.push(DrmPrimePlane { fd: object.fd, offset, len, stride });
        idx = idx + 1;
    }
    proof {
        assert(first_plane_failure(*desc, layer, plane_count as int) is None);
        assert(drm_failure(*desc) is None);
    }
    let mut backing_bytes: usize = 0;
    let mut j: usize = 0;
    while j < object_count
        invariant
            j <= object_count,
            object_count == desc.nb_objects,
            1 <= object_count <= 4,
            objects_size(*desc, object_count as int) <= usize::MAX,
            backing_bytes == objects_size(*desc, j as int),
        decreases object_count - j,
    {
        proof {
            lemma_objects_size_mono(*desc, j + 1, object_count as int);
        }
        backing_bytes = backing_bytes + desc.objects[j].size;
        j = j + 1;
    }
    Ok(DrmPrimeDescriptor { format, planes, backing_bytes })
}

/// Rows of each plane of a picture `height` rows high in this pixel
/// format, for the formats whose planes this library maps.
pub open spec fn av_plane_rows(fmt: AvPixelFormat, height: int) -> Option<Seq<int>> {
    match fmt {
        AvPixelFormat::Nv12 => Some(seq![height, height / 2]),
        AvPixelFormat::Yuv420p | AvPixelFormat::Yuvj420p => Some(seq![height, height / 2, height / 2]),
        AvPixelFormat::Yuyv422 | AvPixelFormat::Rgb24 | AvPixelFormat::Bgr24 | AvPixelFormat::Rgba
        | AvPixelFormat::Bgra => Some(seq![height]),
        _ => None,
    }
}

fn av_plane_rows_exec(fmt: AvPixelFormat, height: usize) -> (r: Option<Vec<usize>>)
    ensures
        match av_plane_rows(fmt, height as int) {
            None => r is None,
            Some(rows) => r matches Some(v) && v@.len() == rows.len() && forall|i: int|
                0 <= i < rows.len() ==> #[trigger] v@[i] as int == rows[i],
        },
{
    match fmt {
        AvPixelFormat::Nv12 => Some(vec![height, height / 2]),
        AvPixelFormat::Yuv420p | AvPixelFormat::Yuvj420p => Some(vec![height, height / 2, height / 2]),
        AvPixelFormat::Yuyv422 | AvPixelFormat::Rgb24 | AvPixelFormat::Bgr24 | AvPixelFormat::Rgba
        | AvPixelFormat::Bgra => Some(vec![height]),
        _ => None,
    }
}

/// The layout of one plane of a decoded picture: at the start of its
/// buffer, as many bytes as its rows take at its pitch (saturated) or as
/// the buffer holds, whichever is fewer, and its pitch, where FFmpeg gives
/// none the picture's width.
pub open spec fn av_plane_layout(stride: usize, rows: int, data_len: usize, width: usize) -> PlaneLayout {
    let want = sat_mul(stride as int, rows);
    PlaneLayout {
        offset: 0,
        len: (if want <= data_len {
            want
        } else {
            data_len as int
        }) as usize,
        stride: if stride == 0 {
            width
        } else {
            stride
        },
    }
}

/// The plane layouts of a picture FFmpeg decoded in pixel format `fmt`,
/// `width` by `height`, given each plane's pitch and buffer length; nothing
/// for formats whose planes this library does not map.
pub fn layouts_for_frame(
    fmt: AvPixelFormat,
    width: usize,
    height: usize,
    strides: &[usize],
    data_lens: &[usize],
) -> (r: Option<Vec<PlaneLayout>>)
    requires
        av_plane_rows(fmt, height as int) matches Some(rows) ==> strides@.len() >= rows.len()
            && data_lens@.len() >= rows.len(),
    ensures
        match av_plane_rows(fmt, height as int) {
            None => r is None,
            Some(rows) => r matches Some(ls) && ls@.len() == rows.len() && forall|i: int|
                0 <= i < rows.len() ==> #[trigger] ls@[i] == av_plane_layout(
                    strides@[i],
                    rows[i],
                    data_lens@[i],
                    width,
                ),
        },
{
    let rows = match av_plane_rows_exec(fmt, height) {
        Some(v) => v,
        None => return None,
    };
    let ghost spec_rows = av_plane_rows(fmt, height as int)->Some_0;
    let mut layouts: Vec<PlaneLayout> = Vec::new();
    let mut i: usize = 0;
    while i < rows.len()
        invariant
            i <= rows@.len(),
            rows@.len() == spec_rows.len(),
            forall|k: int| 0 <= k < spec_rows.len() ==> #[trigger] rows@[k] as int == spec_rows[k],
            strides@.len() >= rows@.len(),
            data_lens@.len() >= rows@.len(),
            layouts@.len() == i,
            forall|k: int|
                0 <= k < i ==> #[trigger] layouts@[k] == av_plane_layout(
                    strides@[k],
                    spec_rows[k],
                    data_lens@[k],
                    width,
                ),
        decreases rows@.len() - i,
    {
        let stride = strides[i];
        let want = saturating_mul(stride, rows[i]);
        let len = if want <= data_lens[i] {
            want
        } else {
            data_lens[i]
        };
        let pitch = if stride == 0 {
            width
        } else {
            stride
        };
        layouts.push(PlaneLayout { offset: 0, len, stride: pitch });
        i = i + 1;
    }
    Some(layouts)
}

/// Whether `f` is among `formats`.
pub fn format_listed(formats: &[AvPixelFormat], f: AvPixelFormat) -> (r: bool)
    ensures
        r == formats@.contains(f),
{
    let mut i: usize = 0;
    while i < formats.len()
        invariant
            i <= formats@.len(),
            forall|k: int| 0 <= k < i ==> formats@[k] != f,
        decreases formats@.len() - i,
    {
        if formats[i] == f {
            return true;
        }
        i = i + 1;
    }
    false
}

/// The first of `candidates` that `supported` lists.
pub open spec fn first_supported(candidates: Seq<AvPixelFormat>, supported: Seq<AvPixelFormat>) -> Option<AvPixelFormat>
    decreases candidates.len(),
{
    if candidates.len() == 0 {
        None
    } else if supported.contains(candidates[0]) {
        Some(candidates[0])
    } else {
        first_supported(candidates.subrange(1, candidates.len() as int), supported)
    }
}

/// The formats an encoder producing `output` is fed by preference when it
/// does not take the input's: JPEG-range 4:2:0 first for MJPEG, NV12
/// first otherwise.
pub open spec fn encoder_fallbacks(output: FourCc) -> Seq<AvPixelFormat> {
    if output == FourCc::MJPG {
        seq![AvPixelFormat::Yuvj420p, AvPixelFormat::Yuvj422p, AvPixelFormat::Yuv420p, AvPixelFormat::Nv12]
    } else {
        seq![AvPixelFormat::Nv12, AvPixelFormat::Yuv420p, AvPixelFormat::Yuvj420p]
    }
}

/// The pixel format an encoder is fed: nothing for a codec that is not a
/// video codec; where the codec lists no formats, JPEG-range 4:2:0 for
/// MJPEG and NV12 otherwise; else the input's format where listed, else
/// the first listed fallback, else the first listed format.
pub open spec fn encoder_pixel_format(
    output: FourCc,
    input: AvPixelFormat,
    is_video: bool,
    supported: Seq<AvPixelFormat>,
) -> Option<AvPixelFormat> {
    if !is_video {
        None
    } else if supported.len() == 0 {
        Some(
            if output == FourCc::MJPG {
                AvPixelFormat::Yuvj420p
            } else {
                AvPixelFormat::Nv12
            },
        )
    } else if supported.contains(input) {
        Some(input)
    } else {
        match first_supported(encoder_fallbacks(output), supported) {
            Some(f) => Some(f),
            None => Some(supported[0]),
        }
    }
}

/// Pick the pixel format to feed an encoder producing `output` from
/// frames in `input`, given whether the codec is a video codec and the
/// formats it lists.
pub fn pick_encoder_pixel_format(
    output: FourCc,
    input: AvPixelFormat,
    is_video: bool,
    supported: &[AvPixelFormat],
) -> (r: Option<AvPixelFormat>)
    ensures
        r == encoder_pixel_format(output, input, is_video, supported@),
{
    if !is_video {
        return None;
    }
    if supported.len() == 0 {
        return Some(
            if output == FourCc::MJPG {
                AvPixelFormat::Yuvj420p
            } else {
                AvPixelFormat::Nv12
            },
        );
    }
    if format_listed(supported, input) {
        return Some(input);
    }
    let candidates: Vec<AvPixelFormat> = if output == FourCc::MJPG {
        vec![AvPixelFormat::Yuvj420p, AvPixelFormat::Yuvj422p, AvPixelFormat::Yuv420p, AvPixelFormat::Nv12]
    } else {
        vec![AvPixelFormat::Nv12, AvPixelFormat::Yuv420p, AvPixelFormat::Yuvj420p]
    };
    assert(candidates@ == encoder_fallbacks(output));
    assert(candidates@.subrange(0, candidates@.len() as int) =~= candidates@);
    let mut i: usize = 0;
    while i < candidates.len()
        invariant
            i <= candidates@.len(),
            is_video,
            supported@.len() > 0,
            !supported@.contains(input),
            candidates@ == encoder_fallbacks(output),
            first_supported(encoder_fallbacks(output), supported@) == first_supported(
                candidates@.subrange(i as int, candidates@.len() as int),
                supported@,
            ),
        decreases candidates@.len() - i,
    {
        let c = candidates[i];
        assert(candidates@.subrange(i as int, candidates@.len() as int).subrange(1, candidates@.len() - i)
            =~= candidates@.subrange(i + 1, candidates@.len() as int));
        assert(candidates@.subrange(i as int, candidates@.len() as int)[0] == c);
        if format_listed(supported, c) {
            return Some(c);
        }
        i = i + 1;
    }
    assert(candidates@.subrange(i as int, candidates@.len() as int).len() == 0);
    Some(supported[0])
}

/// `dst` after copying `n` rows of `rb` bytes, row `y` read from byte
/// `y * ss` of `src` and written at byte `y * ds`, one row after another
/// (a later row overwrites what an earlier one wrote where they overlap).
pub open spec fn copied(dst: Seq<u8>, src: Seq<u8>, ss: int, ds: int, rb: int, n: int) -> Seq<u8>
    decreases n,
{
    if n <= 0 {
        dst
    } else {
        let d = copied(dst, src, ss, ds, rb, n - 1);
        let y = n - 1;
        d.take(y * ds) + src.subrange(y * ss, y * ss + rb) + d.skip(y * ds + rb)
    }
}

/// Row `y` fits: it lies inside both buffers.
pub open spec fn row_fits(src_len: int, dst_len: int, ss: int, ds: int, rb: int, y: int) -> bool {
    y * ss + rb <= src_len && y * ds + rb <= dst_len
}

/// The rows from `y` on, up to `n`, that fit before the first that does
/// not: the index of that first row, or `n`.
pub open spec fn fitting_rows(src_len: int, dst_len: int, ss: int, ds: int, rb: int, y: int, n: int) -> int
    decreases n - y,
{
    if y >= n || !row_fits(src_len, dst_len, ss, ds, rb, y) {
        y
    } else {
        fitting_rows(src_len, dst_len, ss, ds, rb, y + 1, n)
    }
}

proof fn lemma_copied_len(dst: Seq<u8>, src: Seq<u8>, ss: int, ds: int, rb: int, n: int)
    requires
        ss >= 0,
        ds >= 0,
        rb >= 0,
        forall|y: int| 0 <= y < n ==> row_fits(src.len() as int, dst.len() as int, ss, ds, rb, y),
    ensures
        copied(dst, src, ss, ds, rb, n).len() == dst.len(),
    decreases n,
{
    if n > 0 {
        lemma_copied_len(dst, src, ss, ds, rb, n - 1);
        assert(row_fits(src.len() as int, dst.len() as int, ss, ds, rb, n - 1));
        assert(0 <= (n - 1) * ss && 0 <= (n - 1) * ds) by (nonlinear_arith)
            requires
                n >= 1,
                ss >= 0,
                ds >= 0,
        ;
    }
}

/// The offsets that a copy of `n` rows computes do not overflow: the
/// first row that does not fit, if one is reached, still has its offsets
/// and ends in range (the rows before it lie inside their buffers).
pub open spec fn offsets_fit(src_len: int, dst_len: int, ss: int, ds: int, rb: int, n: int) -> bool {
    let k = fitting_rows(src_len, dst_len, ss, ds, rb, 0, n);
    k < n ==> k * ss + rb <= usize::MAX && k * ds + rb <= usize::MAX
}

pub(crate) fn copy_row(src: &[u8], soff: usize, dst: &mut [u8], doff: usize, rb: usize)
    requires
        soff + rb <= src@.len(),
        doff + rb <= old(dst)@.len(),
    ensures
        final(dst)@ == old(dst)@.take(doff as int) + src@.subrange(soff as int, soff + rb) + old(dst)@.skip(
            doff + rb,
        ),
{
    let ghost start = dst@;
    let sl = src.len();
    let dl = dst.len();
    let mut i: usize = 0;
    while i < rb
        invariant
            i <= rb,
            sl == src@.len(),
            dl == dst@.len(),
            dl == start.len(),
            soff + rb <= src@.len(),
            doff + rb <= start.len(),
            dst@ == start.take(doff as int) + src@.subrange(soff as int, soff + i) + start.skip(doff + i),
        decreases rb - i,
    {
        let ghost before = dst@;
        dst[doff + i] = src[soff + i];
        proof {
            assert(dst@ =~= start.take(doff as int) + src@.subrange(soff as int, soff + i + 1) + start.skip(
                doff + i + 1,
            ));
        }
        i = i + 1;
    }
}

/// Copy `rows` rows of `rb` bytes from `src` (rows `ss` apart) into
/// `dst` (rows `ds` apart), stopping at the first row that does not fit;
/// returns how many rows were copied.
pub fn copy_rows(src: &[u8], ss: usize, dst: &mut [u8], ds: usize, rb: usize, rows: usize) -> (n: usize)
    requires
        offsets_fit(src@.len() as int, old(dst)@.len() as int, ss as int, ds as int, rb as int, rows as int),
    ensures
        n == fitting_rows(src@.len() as int, old(dst)@.len() as int, ss as int, ds as int, rb as int, 0, rows as int),
        final(dst)@ == copied(old(dst)@, src@, ss as int, ds as int, rb as int, n as int),
{
    let ghost start = dst@;
    let slen = src.len();
    let dlen = dst.len();
    let mut y: usize = 0;
    while y < rows
        invariant
            y <= rows,
            offsets_fit(slen as int, dlen as int, ss as int, ds as int, rb as int, rows as int),
            slen == src@.len(),
            dlen == start.len(),
            start == old(dst)@,
            dst@ == copied(start, src@, ss as int, ds as int, rb as int, y as int),
            dst@.len() == start.len(),
            forall|k: int| 0 <= k < y ==> row_fits(slen as int, dlen as int, ss as int, ds as int, rb as int, k),
            fitting_rows(slen as int, dlen as int, ss as int, ds as int, rb as int, 0, rows as int) == fitting_rows(
                slen as int,
                dlen as int,
                ss as int,
                ds as int,
                rb as int,
                y as int,
                rows as int,
            ),
        decreases rows - y,
    {
        assert(y * ss + rb <= usize::MAX && y * ds + rb <= usize::MAX) by {
            if !row_fits(slen as int, dlen as int, ss as int, ds as int, rb as int, y as int) {
                assert(fitting_rows(slen as int, dlen as int, ss as int, ds as int, rb as int, y as int, rows as int)
                    == y);
            }
        }
        let soff = y * ss;
        let doff = y * ds;
        if soff + rb > slen || doff + rb > dlen {
            return y;
        }
        copy_row(src, soff, dst, doff, rb);
        proof {
            lemma_copied_len(start, src@, ss as int, ds as int, rb as int, y as int);
        }
        y = y + 1;
    }
    y
}

/// Why a frame could not be written into an encoder's input picture.
#[derive(Debug, Clone, Copy, PartialEq, Eq, Structural)]
pub enum InputFailure {
    Geometry,
    RgbMissingPlane,
    RgbPlaneTooShort,
    RgbaMissingPlane,
    RgbaPlaneTooShort,
    Nv12Planes,
    Nv12YTooShort,
    Nv12UvTooShort,
    I420Planes,
    I420YTooShort,
    I420UvTooShort,
    YuyvMissingPlane,
    YuyvPlaneTooShort,
    Unsupported(AvPixelFormat),
}

/// The message of each failure but an unsupported format's, which names
/// the format in FFmpeg's words.
pub open spec fn input_failure_text(f: InputFailure) -> &'static str {
    match f {
        InputFailure::Geometry => "ffmpeg input frame geometry mismatch",
        InputFailure::RgbMissingPlane => "RGB24 missing plane",
        InputFailure::RgbPlaneTooShort => "RGB24 plane too short",
        InputFailure::RgbaMissingPlane => "RGBA missing plane",
        InputFailure::RgbaPlaneTooShort => "RGBA plane too short",
        InputFailure::Nv12Planes => "NV12 requires 2 planes",
        InputFailure::Nv12YTooShort => "NV12 Y plane too short",
        InputFailure::Nv12UvTooShort => "NV12 UV plane too short",
        InputFailure::I420Planes => "I420 requires 3 planes",
        InputFailure::I420YTooShort => "I420 Y plane too short",
        InputFailure::I420UvTooShort => "I420 UV plane too short",
        InputFailure::YuyvMissingPlane => "YUYV missing plane",
        InputFailure::YuyvPlaneTooShort => "YUYV plane too short",
        InputFailure::Unsupported(_) => "unsupported ffmpeg input pixel format",
    }
}

/// The message of a failure.
pub fn input_failure_message(f: InputFailure) -> (r: String)
    ensures
        r@ == input_failure_text(f)@,
{
    let text: &str = match f {
        InputFailure::Geometry => "ffmpeg input frame geometry mismatch",
        InputFailure::RgbMissingPlane => "RGB24 missing plane",
        InputFailure::RgbPlaneTooShort => "RGB24 plane too short",
        InputFailure::RgbaMissingPlane => "RGBA missing plane",
        InputFailure::RgbaPlaneTooShort => "RGBA plane too short",
        InputFailure::Nv12Planes => "NV12 requires 2 planes",
        InputFailure::Nv12YTooShort => "NV12 Y plane too short",
        InputFailure::Nv12UvTooShort => "NV12 UV plane too short",
        InputFailure::I420Planes => "I420 requires 3 planes",
        InputFailure::I420YTooShort => "I420 Y plane too short",
        InputFailure::I420UvTooShort => "I420 UV plane too short",
        InputFailure::YuyvMissingPlane => "YUYV missing plane",
        InputFailure::YuyvPlaneTooShort => "YUYV plane too short",
        InputFailure::Unsupported(_) => "unsupported ffmpeg input pixel format",
    };
    text.to_owned()
}

/// All `n` rows fit.
pub open spec fn rows_fit(src_len: int, dst_len: int, ss: int, ds: int, rb: int, n: int) -> bool {
    fitting_rows(src_len, dst_len, ss, ds, rb, 0, n) == n
}

/// Where the geometry matches and the checks of a planar write pass, every
/// row read and written lies inside its buffer; the packed copies compute
/// no offset that overflows.
pub open spec fn input_runs(
    meta: FrameMeta,
    planes: Seq<Plane>,
    fmt: AvPixelFormat,
    dst_width: int,
    dst_height: int,
    d0: int,
    d1: int,
    d2: int,
    ds: Seq<usize>,
) -> bool {
    let w = meta.format.resolution.width@ as int;
    let h = meta.format.resolution.height@ as int;
    &&& 4 * w <= usize::MAX
    &&& dst_width == w && dst_height == h ==> match fmt {
        AvPixelFormat::Rgb24 | AvPixelFormat::Bgr24 => planes.len() > 0 ==> offsets_fit(
            planes[0].bytes().len() as int,
            d0,
            planes[0].pitch() as int,
            ds[0] as int,
            3 * w,
            h,
        ),
        AvPixelFormat::Rgba | AvPixelFormat::Bgra => planes.len() > 0 ==> offsets_fit(
            planes[0].bytes().len() as int,
            d0,
            planes[0].pitch() as int,
            ds[0] as int,
            4 * w,
            h,
        ),
        AvPixelFormat::Nv12 => planes.len() >= 2 && planes[0].bytes().len() >= sat_mul(planes[0].pitch() as int, h)
            && planes[1].bytes().len() >= sat_mul(planes[1].pitch() as int, h / 2) ==> {
            &&& rows_fit(planes[0].bytes().len() as int, d0, planes[0].pitch() as int, ds[0] as int, w, h)
            &&& rows_fit(planes[1].bytes().len() as int, d1, planes[1].pitch() as int, ds[1] as int, w, h / 2)
        },
        AvPixelFormat::Yuv420p | AvPixelFormat::Yuvj420p => planes.len() >= 3 && planes[0].bytes().len() >= sat_mul(
            planes[0].pitch() as int,
            h,
        ) && planes[1].bytes().len() >= sat_mul(planes[1].pitch() as int, h / 2) && planes[2].bytes().len()
            >= sat_mul(planes[2].pitch() as int, h / 2) ==> {
            &&& rows_fit(planes[0].bytes().len() as int, d0, planes[0].pitch() as int, ds[0] as int, w, h)
            &&& rows_fit(planes[1].bytes().len() as int, d1, planes[1].pitch() as int, ds[1] as int, w / 2, h / 2)
            &&& rows_fit(planes[2].bytes().len() as int, d2, planes[2].pitch() as int, ds[2] as int, w / 2, h / 2)
        },
        AvPixelFormat::Yuyv422 => planes.len() > 0 && planes[0].bytes().len() >= sat_mul(planes[0].pitch() as int, h)
            ==> rows_fit(planes[0].bytes().len() as int, d0, planes[0].pitch() as int, ds[0] as int, sat_mul(w, 2), h),
        _ => true,
    }
}

/// Write the planes of a frame into the planes of an encoder's input
/// picture (`dst_width` by `dst_height`, plane buffers `dst0` to `dst2`
/// with pitches `dst_strides`) in FFmpeg pixel format `fmt`: each row of
/// visible bytes is copied, and nothing else.  Packed RGB rows are copied
/// until one does not fit in either buffer, which fails the write; the
/// planar formats are checked for length first.
pub fn write_input_frame(
    meta: &FrameMeta,
    planes: &Vec<Plane>,
    fmt: AvPixelFormat,
    dst_width: u32,
    dst_height: u32,
    dst0: &mut [u8],
    dst1: &mut [u8],
    dst2: &mut [u8],
    dst_strides: [usize; 3],
) -> (r: Result<(), InputFailure>)
    requires
        input_runs(*meta, planes@, fmt, dst_width as int, dst_height as int, old(dst0)@.len() as int, old(dst1)@.len() as int, old(dst2)@.len() as int, dst_strides@),
    ensures
        ({
            let w = meta.format.resolution.width@ as int;
            let h = meta.format.resolution.height@ as int;
            let ds = dst_strides@;
            if dst_width != w || dst_height != h {
                r == Err::<(), InputFailure>(InputFailure::Geometry) && final(dst0)@ == old(dst0)@ && final(dst1)@ == old(dst1)@
                    && final(dst2)@ == old(dst2)@
            } else {
                match fmt {
                    AvPixelFormat::Rgb24 | AvPixelFormat::Bgr24 | AvPixelFormat::Rgba | AvPixelFormat::Bgra => {
                        let rgba = fmt == AvPixelFormat::Rgba || fmt == AvPixelFormat::Bgra;
                        let rb = if rgba { 4 * w } else { 3 * w };
                        &&& final(dst1)@ == old(dst1)@ && final(dst2)@ == old(dst2)@
                        &&& if planes@.len() == 0 {
                            r == Err::<(), InputFailure>(
                                if rgba { InputFailure::RgbaMissingPlane } else { InputFailure::RgbMissingPlane },
                            ) && final(dst0)@ == old(dst0)@
                        } else {
                            let n = fitting_rows(
                                planes@[0].bytes().len() as int,
                                old(dst0)@.len() as int,
                                planes@[0].pitch() as int,
                                ds[0] as int,
                                rb,
                                0,
                                h,
                            );
                            &&& final(dst0)@ == copied(old(dst0)@, planes@[0].bytes(), planes@[0].pitch() as int, ds[0] as int, rb, n)
                            &&& r == if n == h {
                                Ok::<(), InputFailure>(())
                            } else {
                                Err(if rgba { InputFailure::RgbaPlaneTooShort } else { InputFailure::RgbPlaneTooShort })
                            }
                        }
                    },
                    AvPixelFormat::Nv12 => if planes@.len() < 2 {
                        r == Err::<(), InputFailure>(InputFailure::Nv12Planes) && final(dst0)@ == old(dst0)@
                            && final(dst1)@ == old(dst1)@ && final(dst2)@ == old(dst2)@
                    } else if planes@[0].bytes().len() < sat_mul(planes@[0].pitch() as int, h) {
                        r == Err::<(), InputFailure>(InputFailure::Nv12YTooShort) && final(dst0)@ == old(dst0)@
                            && final(dst1)@ == old(dst1)@ && final(dst2)@ == old(dst2)@
                    } else if planes@[1].bytes().len() < sat_mul(planes@[1].pitch() as int, h / 2) {
                        r == Err::<(), InputFailure>(InputFailure::Nv12UvTooShort) && final(dst0)@ == old(dst0)@
                            && final(dst1)@ == old(dst1)@ && final(dst2)@ == old(dst2)@
                    } else {
                        &&& r == Ok::<(), InputFailure>(())
                        &&& final(dst0)@ == copied(old(dst0)@, planes@[0].bytes(), planes@[0].pitch() as int, ds[0] as int, w, h)
                        &&& final(dst1)@ == copied(old(dst1)@, planes@[1].bytes(), planes@[1].pitch() as int, ds[1] as int, w, h / 2)
                        &&& final(dst2)@ == old(dst2)@
                    },
                    AvPixelFormat::Yuv420p | AvPixelFormat::Yuvj420p => if planes@.len() < 3 {
                        r == Err::<(), InputFailure>(InputFailure::I420Planes) && final(dst0)@ == old(dst0)@
                            && final(dst1)@ == old(dst1)@ && final(dst2)@ == old(dst2)@
                    } else if planes@[0].bytes().len() < sat_mul(planes@[0].pitch() as int, h) {
                        r == Err::<(), InputFailure>(InputFailure::I420YTooShort) && final(dst0)@ == old(dst0)@
                            && final(dst1)@ == old(dst1)@ && final(dst2)@ == old(dst2)@
                    } else if planes@[1].bytes().len() < sat_mul(planes@[1].pitch() as int, h / 2)
                        || planes@[2].bytes().len() < sat_mul(planes@[2].pitch() as int, h / 2) {
                        r == Err::<(), InputFailure>(InputFailure::I420UvTooShort) && final(dst0)@ == old(dst0)@
                            && final(dst1)@ == old(dst1)@ && final(dst2)@ == old(dst2)@
                    } else {
                        &&& r == Ok::<(), InputFailure>(())
                        &&& final(dst0)@ == copied(old(dst0)@, planes@[0].bytes(), planes@[0].pitch() as int, ds[0] as int, w, h)
                        &&& final(dst1)@ == copied(old(dst1)@, planes@[1].bytes(), planes@[1].pitch() as int, ds[1] as int, w / 2, h / 2)
                        &&& final(dst2)@ == copied(old(dst2)@, planes@[2].bytes(), planes@[2].pitch() as int, ds[2] as int, w / 2, h / 2)
                    },
                    AvPixelFormat::Yuyv422 => if planes@.len() == 0 {
                        r == Err::<(), InputFailure>(InputFailure::YuyvMissingPlane) && final(dst0)@ == old(dst0)@
                            && final(dst1)@ == old(dst1)@ && final(dst2)@ == old(dst2)@
                    } else if planes@[0].bytes().len() < sat_mul(planes@[0].pitch() as int, h) {
                        r == Err::<(), InputFailure>(InputFailure::YuyvPlaneTooShort) && final(dst0)@ == old(dst0)@
                            && final(dst1)@ == old(dst1)@ && final(dst2)@ == old(dst2)@
                    } else {
                        &&& r == Ok::<(), InputFailure>(())
                        &&& final(dst0)@ == copied(old(dst0)@, planes@[0].bytes(), planes@[0].pitch() as int, ds[0] as int, sat_mul(w, 2), h)
                        &&& final(dst1)@ == old(dst1)@ && final(dst2)@ == old(dst2)@
                    },
                    _ => r == Err::<(), InputFailure>(InputFailure::Unsupported(fmt)) && final(dst0)@ == old(dst0)@
                        && final(dst1)@ == old(dst1)@ && final(dst2)@ == old(dst2)@,
                }
            }
        }),
{
    let width = meta.format.resolution.width.get();
    let height = meta.format.resolution.height.get();
    if dst_width != width || dst_height != height {
        return Err(InputFailure::Geometry);
    }
    let w = width as usize;
    let h = height as usize;
    match fmt {
        AvPixelFormat::Rgb24 | AvPixelFormat::Bgr24 | AvPixelFormat::Rgba | AvPixelFormat::Bgra => {
            let rgba = fmt == AvPixelFormat::Rgba || fmt == AvPixelFormat::Bgra;
            if planes.len() == 0 {
                return Err(
                    if rgba {
                        InputFailure::RgbaMissingPlane
                    } else {
                        InputFailure::RgbMissingPlane
                    },
                );
            }
            let plane = planes[0];
            let rb = if rgba {
                w * 4
            } else {
                w * 3
            };
            let n = copy_rows(plane.data(), plane.stride(), dst0, dst_strides[0], rb, h);
            if n == h {
                Ok(())
            } else {
                Err(
                    if rgba {
                        InputFailure::RgbaPlaneTooShort
                    } else {
                        InputFailure::RgbPlaneTooShort
                    },
                )
            }
        },
        AvPixelFormat::Nv12 => {
            if planes.len() < 2 {
                return Err(InputFailure::Nv12Planes);
            }
            let y = planes[0];
            let uv = planes[1];
            if y.data().len() < saturating_mul(y.stride(), h) {
                return Err(InputFailure::Nv12YTooShort);
            }
            if uv.data().len() < saturating_mul(uv.stride(), h / 2) {
                return Err(InputFailure::Nv12UvTooShort);
            }
            copy_rows(y.data(), y.stride(), dst0, dst_strides[0], w, h);
            copy_rows(uv.data(), uv.stride(), dst1, dst_strides[1], w, h / 2);
            Ok(())
        },
        AvPixelFormat::Yuv420p | AvPixelFormat::Yuvj420p => {
            if planes.len() < 3 {
                return Err(InputFailure::I420Planes);
            }
            let y = planes[0];
            let u = planes[1];
            let v = planes[2];
            if y.data().len() < saturating_mul(y.stride(), h) {
                return Err(InputFailure::I420YTooShort);
            }
            if u.data().len() < saturating_mul(u.stride(), h / 2) || v.data().len() < saturating_mul(v.stride(), h / 2) {
                return Err(InputFailure::I420UvTooShort);
            }
            let cw = w / 2;
            copy_rows(y.data(), y.stride(), dst0, dst_strides[0], w, h);
            copy_rows(u.data(), u.stride(), dst1, dst_strides[1], cw, h / 2);
            copy_rows(v.data(), v.stride(), dst2, dst_strides[2], cw, h / 2);
            Ok(())
        },
        AvPixelFormat::Yuyv422 => {
            if planes.len() == 0 {
                return Err(InputFailure::YuyvMissingPlane);
            }
            let plane = planes[0];
            let bytes_per_row = saturating_mul(w, 2);
            if plane.data().len() < saturating_mul(plane.stride(), h) {
                return Err(InputFailure::YuyvPlaneTooShort);
            }
            copy_rows(plane.data(), plane.stride(), dst0, dst_strides[0], bytes_per_row, h);
            Ok(())
        },
        _ => Err(InputFailure::Unsupported(fmt)),
    }
}

/// The frame code a pixel format maps back to is the code it came from,
/// for every code that has a pixel format.
pub proof fn lemma_pixel_format_round_trip(code: FourCc)
    requires
        pixel_format_of(code) is Some,
    ensures
        fourcc_of_pixel_format(pixel_format_of(code)->Some_0) == Some(code),
{
}

} // verus!
