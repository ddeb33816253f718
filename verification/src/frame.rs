//! Plane layouts of frames: how many planes a format has, how many visible
//! bytes and rows each holds, default allocation layouts and the checks a
//! frame's layouts must pass.
use vstd::prelude::*;

use crate::format::{
    layout_info_of, ColorSpace, FourCc, Resolution, div_ceil2, first_plane_row_bytes_spec, fit_usize, ChromaSubsampling, FrameLayoutInfo,
    FrameStorageKind, MediaFormat,
};
use crate::meta::{FrameMeta, FrameMutability, FrameResidency};

verus! {

/// Position, length and row pitch of one plane inside its buffer.
#[derive(Debug, Clone, Copy, PartialEq, Eq, Structural)]
pub struct PlaneLayout {
    pub offset: usize,
    pub len: usize,
    pub stride: usize,
}

/// Serializable description of one plane of a frame.
#[derive(Debug, Clone, Copy, PartialEq, Eq, Structural)]
pub struct FramePlaneDescriptor {
    pub offset: usize,
    pub len: usize,
    pub stride: usize,
}

impl From<PlaneLayout> for FramePlaneDescriptor {
    fn from(layout: PlaneLayout) -> (r: Self) {
        FramePlaneDescriptor { offset: layout.offset, len: layout.len, stride: layout.stride }
    }
}

impl vstd::std_specs::convert::FromSpecImpl<PlaneLayout> for FramePlaneDescriptor {
    open spec fn obeys_from_spec() -> bool {
        true
    }

    open spec fn from_spec(v: PlaneLayout) -> Self {
        FramePlaneDescriptor { offset: v.offset, len: v.len, stride: v.stride }
    }
}

impl From<FramePlaneDescriptor> for PlaneLayout {
    fn from(plane: FramePlaneDescriptor) -> (r: Self) {
        PlaneLayout { offset: plane.offset, len: plane.len, stride: plane.stride }
    }
}

impl vstd::std_specs::convert::FromSpecImpl<FramePlaneDescriptor> for PlaneLayout {
    open spec fn obeys_from_spec() -> bool {
        true
    }

    open spec fn from_spec(v: FramePlaneDescriptor) -> Self {
        PlaneLayout { offset: v.offset, len: v.len, stride: v.stride }
    }
}

/// Visible geometry of one plane together with its layout.
#[derive(Debug, Clone, Copy, PartialEq, Eq, Structural)]
pub struct FramePlaneShape {
    pub width: usize,
    pub height: usize,
    pub row_bytes: usize,
    pub stride: usize,
    pub offset: usize,
    pub len: usize,
}

/// Why a frame's planes cannot be used as asked.
#[derive(Debug, Clone, Copy, PartialEq, Eq, Structural)]
pub enum FrameValidationError {
    NotHostReadable(FrameResidency),
    NotHostWritable(FrameResidency),
    NotMutable(FrameMutability),
    NoPlanes,
    PlaneCountMismatch { expected: usize, actual: usize },
    PlaneStrideTooSmall { index: usize, stride: usize, visible_row_bytes: usize },
    PlaneLenTooSmall { index: usize, len: usize, expected_len: usize },
    ZeroDimensions,
    UnknownStorageLayout,
    UnsupportedAllocationResidency(FrameResidency),
    AliasUnknown,
    BufferTooSmall { expected: usize, actual: usize },
    PlaneRangeOverlap { left: usize, right: usize },
    InvalidAlignment(usize),
}

/// What a frame allocation asks for.
#[derive(Debug, Clone, Copy, PartialEq, Eq, Structural)]
pub struct FrameAllocation {
    pub format: MediaFormat,
    pub timestamp: u64,
    pub mutability: FrameMutability,
    pub residency: FrameResidency,
    pub stride_alignment: Option<usize>,
    pub plane_alignment: Option<usize>,
}

/// `a + b`, saturating at `usize::MAX`.
pub open spec fn sat_add(a: int, b: int) -> int {
    if a + b > usize::MAX {
        usize::MAX as int
    } else {
        a + b
    }
}

/// `a * b`, saturating at `usize::MAX`.
pub open spec fn sat_mul(a: int, b: int) -> int {
    if a * b > usize::MAX {
        usize::MAX as int
    } else {
        a * b
    }
}

/// `a * b`, saturating at `usize::MAX`.
pub fn saturating_mul(a: usize, b: usize) -> (r: usize)
    ensures
        r == sat_mul(a as int, b as int),
{
    match a.checked_mul(b) {
        Some(p) => p,
        None => usize::MAX,
    }
}

/// One past the last byte a layout covers, saturating.
pub open spec fn layout_end(l: PlaneLayout) -> int {
    sat_add(l.offset as int, l.len as int)
}

/// A layout of `rows` rows of `stride` bytes starting at offset 0.
pub open spec fn tight_layout(stride: int, rows: int) -> PlaneLayout {
    PlaneLayout { offset: 0, len: (stride * rows) as usize, stride: stride as usize }
}

/// Single-plane layout of `width` pixels of `bytes_per_pixel` bytes by `height` rows.
pub fn plane_layout_from_dims(
    width: crate::format::NonZeroU32,
    height: crate::format::NonZeroU32,
    bytes_per_pixel: usize,
) -> (r: PlaneLayout)
    requires
        width@ * bytes_per_pixel * height@ <= usize::MAX,
    ensures
        r == tight_layout(width@ * bytes_per_pixel, height@ as int),
{
    let w = width.get() as usize;
    let h = height.get() as usize;
    proof {
        assert(0 <= w * bytes_per_pixel <= w * bytes_per_pixel * h) by (nonlinear_arith)
            requires
                h >= 1,
        ;
    }
    let stride = w * bytes_per_pixel;
    let len = stride * h;
    PlaneLayout { offset: 0, len, stride }
}

/// Single-plane layout of `height` rows of `stride` bytes.
pub fn plane_layout_with_stride(
    _width: crate::format::NonZeroU32,
    height: crate::format::NonZeroU32,
    stride: usize,
) -> (r: PlaneLayout)
    requires
        stride * height@ <= usize::MAX,
    ensures
        r == tight_layout(stride as int, height@ as int),
{
    let len = stride * height.get() as usize;
    PlaneLayout { offset: 0, len, stride }
}

/// Whether `n` is a power of two.
pub open spec fn is_pow2(n: nat) -> bool
    decreases n,
{
    if n == 0 {
        false
    } else if n == 1 {
        true
    } else {
        n % 2 == 0 && is_pow2(n / 2)
    }
}

/// Whether `n` is a power of two.
pub fn is_power_of_two(n: usize) -> (r: bool)
    ensures
        r == is_pow2(n as nat),
{
    if n == 0 {
        return false;
    }
    let mut m = n;
    while m > 1 && m % 2 == 0
        invariant
            m > 0,
            is_pow2(n as nat) == is_pow2(m as nat),
        decreases m,
    {
        m = m / 2;
    }
    m == 1
}

/// The error an optional alignment produces: none when absent or a power of two.
pub open spec fn alignment_check(a: Option<usize>) -> Result<(), FrameValidationError> {
    match a {
        None => Ok(()),
        Some(n) => if is_pow2(n as nat) {
            Ok(())
        } else {
            Err(FrameValidationError::InvalidAlignment(n))
        },
    }
}

/// Alignments must be non-zero powers of two when given.
pub fn validate_alignment(alignment: Option<usize>) -> (r: Result<(), FrameValidationError>)
    ensures
        r == alignment_check(alignment),
{
    match alignment {
        None => Ok(()),
        Some(a) => if a == 0 || !is_power_of_two(a) {
            Err(FrameValidationError::InvalidAlignment(a))
        } else {
            Ok(())
        },
    }
}

/// `value` rounded up to a multiple of `a`, the sum saturating first.
pub open spec fn round_up(value: int, a: int) -> int {
    let s = sat_add(value, a - 1);
    s - s % a
}

/// `value` aligned up as an optional alignment asks.
pub open spec fn aligned(value: int, alignment: Option<usize>) -> int {
    match alignment {
        None => value,
        Some(a) => round_up(value, a as int),
    }
}

/// Round `value` up to the alignment, if any.
pub fn align_up(value: usize, alignment: Option<usize>) -> (r: Result<usize, FrameValidationError>)
    ensures
        match alignment_check(alignment) {
            Err(e) => r == Err::<usize, FrameValidationError>(e),
            Ok(_) => r == Ok::<usize, FrameValidationError>(aligned(value as int, alignment) as usize),
        },
        alignment matches Some(a) ==> (r matches Ok(v) ==> v % a == 0 && (value + a - 1
            <= usize::MAX ==> value <= v < value + a)),
{
    match alignment {
        None => Ok(value),
        Some(a) => {
            match validate_alignment(Some(a)) {
                Err(e) => Err(e),
                Ok(()) => {
                    let s = value.saturating_add(a - 1);
                    let v = s - s % a;
                    proof {
                        vstd::arithmetic::div_mod::lemma_fundamental_div_mod(s as int, a as int);
                        vstd::arithmetic::div_mod::lemma_mod_bound(s as int, a as int);
                        assert((s - s % a) % (a as int) == 0) by (nonlinear_arith)
                            requires
                                s == (a as int) * (s as int / a as int) + s % a,
                                a > 0,
                        {
                            vstd::arithmetic::div_mod::lemma_mod_multiples_basic(s as int / a as int, a as int);
                            assert((a as int) * (s as int / a as int) == (s as int / a as int) * (a as int));
                        }
                    }
                    Ok(v)
                },
            }
        },
    }
}

/// Layout of `rows` rows of `row_bytes` visible bytes, aligned as asked.
pub open spec fn layout_for_visible(
    row_bytes: int,
    rows: int,
    stride_alignment: Option<usize>,
    plane_alignment: Option<usize>,
) -> PlaneLayout {
    let stride = aligned(row_bytes, stride_alignment);
    PlaneLayout {
        offset: 0,
        len: aligned(sat_mul(stride, rows), plane_alignment) as usize,
        stride: stride as usize,
    }
}

/// The first alignment error of a stride alignment and a plane alignment.
pub open spec fn alignments_check(sa: Option<usize>, pa: Option<usize>) -> Result<(), FrameValidationError> {
    match alignment_check(sa) {
        Err(e) => Err(e),
        Ok(_) => alignment_check(pa),
    }
}

/// Layout of `rows` rows holding `row_bytes` visible bytes each.
pub fn plane_layout_for_visible(
    row_bytes: usize,
    rows: usize,
    stride_alignment: Option<usize>,
    plane_alignment: Option<usize>,
) -> (r: Result<PlaneLayout, FrameValidationError>)
    ensures
        match alignments_check(stride_alignment, plane_alignment) {
            Err(e) => r == Err::<PlaneLayout, FrameValidationError>(e),
            Ok(_) => r == Ok::<PlaneLayout, FrameValidationError>(
                layout_for_visible(row_bytes as int, rows as int, stride_alignment, plane_alignment),
            ),
        },
{
    let stride = match align_up(row_bytes, stride_alignment) {
        Ok(s) => s,
        Err(e) => return Err(e),
    };
    let len = match align_up(saturating_mul(stride, rows), plane_alignment) {
        Ok(l) => l,
        Err(e) => return Err(e),
    };
    Ok(PlaneLayout { offset: 0, len, stride })
}

/// Visible bytes per row of plane `plane` of a frame `width` pixels wide.
pub open spec fn plane_row_bytes(info: FrameLayoutInfo, width: int, plane: int) -> Option<usize> {
    match info.storage {
        FrameStorageKind::Packed | FrameStorageKind::RawBayer => if plane == 0 {
            first_plane_row_bytes_spec(info, width)
        } else {
            None
        },
        FrameStorageKind::SemiPlanar => match info.planes.subsampling {
            Some(ChromaSubsampling::Cs420) | Some(ChromaSubsampling::Cs422) => if plane == 0
                || plane == 1 {
                fit_usize(width)
            } else {
                None
            },
            Some(ChromaSubsampling::Cs444) => if plane == 0 {
                fit_usize(width)
            } else if plane == 1 {
                fit_usize(width * 2)
            } else {
                None
            },
            None => if plane == 0 {
                fit_usize(width)
            } else {
                None
            },
        },
        FrameStorageKind::Planar => match info.planes.subsampling {
            Some(ChromaSubsampling::Cs420) | Some(ChromaSubsampling::Cs422) => if plane == 0 {
                fit_usize(width)
            } else if plane == 1 || plane == 2 {
                fit_usize((width + 1) / 2)
            } else {
                None
            },
            Some(ChromaSubsampling::Cs444) => if 0 <= plane <= 2 {
                fit_usize(width)
            } else {
                None
            },
            None => if plane == 0 {
                fit_usize(width)
            } else {
                None
            },
        },
        _ => None,
    }
}

/// Visible width in samples of plane `plane`.
pub open spec fn plane_width(info: FrameLayoutInfo, width: int, plane: int) -> Option<usize> {
    match info.storage {
        FrameStorageKind::Packed | FrameStorageKind::RawBayer => if plane == 0 {
            fit_usize(width)
        } else {
            None
        },
        FrameStorageKind::SemiPlanar => if plane == 0 || (plane == 1
            && info.planes.subsampling is Some) {
            fit_usize(width)
        } else {
            None
        },
        FrameStorageKind::Planar => match info.planes.subsampling {
            Some(ChromaSubsampling::Cs420) | Some(ChromaSubsampling::Cs422) => if plane == 0 {
                fit_usize(width)
            } else if plane == 1 || plane == 2 {
                fit_usize((width + 1) / 2)
            } else {
                None
            },
            Some(ChromaSubsampling::Cs444) => if 0 <= plane <= 2 {
                fit_usize(width)
            } else {
                None
            },
            None => if plane == 0 {
                fit_usize(width)
            } else {
                None
            },
        },
        _ => None,
    }
}

/// Visible rows of plane `plane` of a frame `height` rows high.
pub open spec fn plane_rows(info: FrameLayoutInfo, height: int, plane: int) -> Option<usize> {
    match info.storage {
        FrameStorageKind::Packed | FrameStorageKind::RawBayer => if plane == 0 {
            fit_usize(height)
        } else {
            None
        },
        FrameStorageKind::SemiPlanar => match info.planes.subsampling {
            Some(ChromaSubsampling::Cs420) => if plane == 0 {
                fit_usize(height)
            } else if plane == 1 {
                fit_usize((height + 1) / 2)
            } else {
                None
            },
            Some(_) => if plane == 0 || plane == 1 {
                fit_usize(height)
            } else {
                None
            },
            None => if plane == 0 {
                fit_usize(height)
            } else {
                None
            },
        },
        FrameStorageKind::Planar => match info.planes.subsampling {
            Some(ChromaSubsampling::Cs420) => if plane == 0 {
                fit_usize(height)
            } else if plane == 1 || plane == 2 {
                fit_usize((height + 1) / 2)
            } else {
                None
            },
            Some(_) => if 0 <= plane <= 2 {
                fit_usize(height)
            } else {
                None
            },
            None => if plane == 0 {
                fit_usize(height)
            } else {
                None
            },
        },
        _ => None,
    }
}

/// Visible bytes per row of one plane.
pub fn visible_row_bytes_for_plane(info: FrameLayoutInfo, width: usize, plane_index: usize) -> (r:
    Option<usize>)
    ensures
        r == plane_row_bytes(info, width as int, plane_index as int),
{
    match info.storage {
        FrameStorageKind::Packed | FrameStorageKind::RawBayer => if plane_index == 0 {
            info.first_plane_visible_row_bytes(width)
        } else {
            None
        },
        FrameStorageKind::SemiPlanar => match info.planes.subsampling {
            Some(ChromaSubsampling::Cs420) | Some(ChromaSubsampling::Cs422) => if plane_index == 0
                || plane_index == 1 {
                Some(width)
            } else {
                None
            },
            Some(ChromaSubsampling::Cs444) => if plane_index == 0 {
                Some(width)
            } else if plane_index == 1 {
                width.checked_mul(2)
            } else {
                None
            },
            None => if plane_index == 0 {
                Some(width)
            } else {
                None
            },
        },
        FrameStorageKind::Planar => match info.planes.subsampling {
            Some(ChromaSubsampling::Cs420) | Some(ChromaSubsampling::Cs422) => if plane_index
                == 0 {
                Some(width)
            } else if plane_index == 1 || plane_index == 2 {
                Some(div_ceil2(width))
            } else {
                None
            },
            Some(ChromaSubsampling::Cs444) => if plane_index <= 2 {
                Some(width)
            } else {
                None
            },
            None => if plane_index == 0 {
                Some(width)
            } else {
                None
            },
        },
        _ => None,
    }
}

/// Visible width in samples of one plane.
pub fn visible_width_for_plane(info: FrameLayoutInfo, width: usize, plane_index: usize) -> (r:
    Option<usize>)
    ensures
        r == plane_width(info, width as int, plane_index as int),
{
    match info.storage {
        FrameStorageKind::Packed | FrameStorageKind::RawBayer => if plane_index == 0 {
            Some(width)
        } else {
            None
        },
        FrameStorageKind::SemiPlanar => if plane_index == 0 || (plane_index == 1
            && info.planes.subsampling.is_some()) {
            Some(width)
        } else {
            None
        },
        FrameStorageKind::Planar => match info.planes.subsampling {
            Some(ChromaSubsampling::Cs420) | Some(ChromaSubsampling::Cs422) => if plane_index
                == 0 {
                Some(width)
            } else if plane_index == 1 || plane_index == 2 {
                Some(div_ceil2(width))
            } else {
                None
            },
            Some(ChromaSubsampling::Cs444) => if plane_index <= 2 {
                Some(width)
            } else {
                None
            },
            None => if plane_index == 0 {
                Some(width)
            } else {
                None
            },
        },
        _ => None,
    }
}

/// Visible rows of one plane.
pub fn visible_rows_for_plane(info: FrameLayoutInfo, height: usize, plane_index: usize) -> (r:
    Option<usize>)
    ensures
        r == plane_rows(info, height as int, plane_index as int),
{
    match info.storage {
        FrameStorageKind::Packed | FrameStorageKind::RawBayer => if plane_index == 0 {
            Some(height)
        } else {
            None
        },
        FrameStorageKind::SemiPlanar => match info.planes.subsampling {
            Some(ChromaSubsampling::Cs420) => if plane_index == 0 {
                Some(height)
            } else if plane_index == 1 {
                Some(div_ceil2(height))
            } else {
                None
            },
            Some(_) => if plane_index == 0 || plane_index == 1 {
                Some(height)
            } else {
                None
            },
            None => if plane_index == 0 {
                Some(height)
            } else {
                None
            },
        },
        FrameStorageKind::Planar => match info.planes.subsampling {
            Some(ChromaSubsampling::Cs420) => if plane_index == 0 {
                Some(height)
            } else if plane_index == 1 || plane_index == 2 {
                Some(div_ceil2(height))
            } else {
                None
            },
            Some(_) => if plane_index <= 2 {
                Some(height)
            } else {
                None
            },
            None => if plane_index == 0 {
                Some(height)
            } else {
                None
            },
        },
        _ => None,
    }
}


/// The layout of a plane at `rb` visible bytes by `rows` rows, aligned as asked.
pub open spec fn lv(rb: int, rows: int, sa: Option<usize>, pa: Option<usize>) -> PlaneLayout {
    layout_for_visible(rb, rows, sa, pa)
}

/// The planes a freshly allocated frame of `format` gets, or why it gets none.
pub open spec fn default_layouts_spec(format: MediaFormat, sa: Option<usize>, pa: Option<usize>) -> Result<Seq<PlaneLayout>, FrameValidationError> {
    let w = format.resolution.width@ as int;
    let h = format.resolution.height@ as int;
    let info = layout_info_of(format.code);
    let half_w = (w + 1) / 2;
    let half_h = (h + 1) / 2;
    match info.storage {
        FrameStorageKind::Packed | FrameStorageKind::RawBayer => match first_plane_row_bytes_spec(info, w) {
            None => Err(FrameValidationError::UnknownStorageLayout),
            Some(rb) => match alignments_check(sa, pa) {
                Err(e) => Err(e),
                Ok(_) => Ok(seq![lv(rb as int, h, sa, pa)]),
            },
        },
        FrameStorageKind::SemiPlanar => match info.planes.subsampling {
            None => Err(FrameValidationError::UnknownStorageLayout),
            Some(s) => match alignments_check(sa, pa) {
                Err(e) => Err(e),
                Ok(_) => Ok(
                    match s {
                        ChromaSubsampling::Cs420 => seq![lv(w, h, sa, pa), lv(w, half_h, sa, pa)],
                        ChromaSubsampling::Cs422 => seq![lv(w, h, sa, pa), lv(w, h, sa, pa)],
                        ChromaSubsampling::Cs444 => seq![lv(w, h, sa, pa), lv(sat_mul(w, 2), h, sa, pa)],
                    },
                ),
            },
        },
        FrameStorageKind::Planar => match alignments_check(sa, pa) {
            Err(e) => Err(e),
            Ok(_) => Ok(
                match info.planes.subsampling {
                    Some(ChromaSubsampling::Cs420) => seq![
                        lv(w, h, sa, pa),
                        lv(half_w, half_h, sa, pa),
                        lv(half_w, half_h, sa, pa),
                    ],
                    Some(ChromaSubsampling::Cs422) => seq![
                        lv(w, h, sa, pa),
                        lv(half_w, h, sa, pa),
                        lv(half_w, h, sa, pa),
                    ],
                    Some(ChromaSubsampling::Cs444) => seq![
                        lv(w, h, sa, pa),
                        lv(w, h, sa, pa),
                        lv(w, h, sa, pa),
                    ],
                    None => seq![lv(w, h, sa, pa)],
                },
            ),
        },
        _ => Err(FrameValidationError::UnknownStorageLayout),
    }
}

/// Plane layouts a host-owned frame of `format` is allocated with.
pub fn default_layouts_for_format(
    format: MediaFormat,
    stride_alignment: Option<usize>,
    plane_alignment: Option<usize>,
) -> (r: Result<Vec<PlaneLayout>, FrameValidationError>)
    ensures
        match default_layouts_spec(format, stride_alignment, plane_alignment) {
            Ok(s) => r matches Ok(v) && v@ == s,
            Err(e) => r == Err::<Vec<PlaneLayout>, FrameValidationError>(e),
        },
{
    let width = format.resolution.width.get() as usize;
    let height = format.resolution.height.get() as usize;
    let info = format.code.layout_info();
    let sa = stride_alignment;
    let pa = plane_alignment;
    match info.storage {
        FrameStorageKind::Packed | FrameStorageKind::RawBayer => {
            let row_bytes = match info.first_plane_visible_row_bytes(width) {
                Some(rb) => rb,
                None => return Err(FrameValidationError::UnknownStorageLayout),
            };
            let p0 = plane_layout_for_visible(row_bytes, height, sa, pa)?;
            Ok(vec![p0])
        },
        FrameStorageKind::SemiPlanar => match info.planes.subsampling {
            Some(ChromaSubsampling::Cs420) => {
                let p0 = plane_layout_for_visible(width, height, sa, pa)?;
                let p1 = plane_layout_for_visible(width, div_ceil2(height), sa, pa)?;
                Ok(vec![p0, p1])
            },
            Some(ChromaSubsampling::Cs422) => {
                let p0 = plane_layout_for_visible(width, height, sa, pa)?;
                let p1 = plane_layout_for_visible(width, height, sa, pa)?;
                Ok(vec![p0, p1])
            },
            Some(ChromaSubsampling::Cs444) => {
                let p0 = plane_layout_for_visible(width, height, sa, pa)?;
                let p1 = plane_layout_for_visible(saturating_mul(width, 2), height, sa, pa)?;
                Ok(vec![p0, p1])
            },
            None => Err(FrameValidationError::UnknownStorageLayout),
        },
        FrameStorageKind::Planar => match info.planes.subsampling {
            Some(ChromaSubsampling::Cs420) => {
                let p0 = plane_layout_for_visible(width, height, sa, pa)?;
                let p1 = plane_layout_for_visible(div_ceil2(width), div_ceil2(height), sa, pa)?;
                let p2 = plane_layout_for_visible(div_ceil2(width), div_ceil2(height), sa, pa)?;
                Ok(vec![p0, p1, p2])
            },
            Some(ChromaSubsampling::Cs422) => {
                let p0 = plane_layout_for_visible(width, height, sa, pa)?;
                let p1 = plane_layout_for_visible(div_ceil2(width), height, sa, pa)?;
                let p2 = plane_layout_for_visible(div_ceil2(width), height, sa, pa)?;
                Ok(vec![p0, p1, p2])
            },
            Some(ChromaSubsampling::Cs444) => {
                let p0 = plane_layout_for_visible(width, height, sa, pa)?;
                let p1 = plane_layout_for_visible(width, height, sa, pa)?;
                let p2 = plane_layout_for_visible(width, height, sa, pa)?;
                Ok(vec![p0, p1, p2])
            },
            None => {
                let p0 = plane_layout_for_visible(width, height, sa, pa)?;
                Ok(vec![p0])
            },
        },
        _ => Err(FrameValidationError::UnknownStorageLayout),
    }
}

/// The check one plane's layout must pass for `visible_row_bytes` by `height`.
pub open spec fn plane_check(index: usize, layout: Option<PlaneLayout>, visible_row_bytes: usize, height: usize) -> Result<(), FrameValidationError> {
    match layout {
        None => Err(FrameValidationError::NoPlanes),
        Some(l) => if l.stride < visible_row_bytes {
            Err(
                FrameValidationError::PlaneStrideTooSmall {
                    index,
                    stride: l.stride,
                    visible_row_bytes,
                },
            )
        } else if l.len < sat_mul(l.stride as int, height as int) {
            Err(
                FrameValidationError::PlaneLenTooSmall {
                    index,
                    len: l.len,
                    expected_len: sat_mul(l.stride as int, height as int) as usize,
                },
            )
        } else {
            Ok(())
        },
    }
}

/// A plane's stride must cover its visible row bytes and its length all its rows.
pub fn validate_plane_layout(
    index: usize,
    layout: Option<&PlaneLayout>,
    visible_row_bytes: usize,
    height: usize,
) -> (r: Result<(), FrameValidationError>)
    ensures
        r == plane_check(
            index,
            match layout {
                Some(l) => Some(*l),
                None => None,
            },
            visible_row_bytes,
            height,
        ),
{
    let layout = match layout {
        Some(l) => l,
        None => return Err(FrameValidationError::NoPlanes),
    };
    if layout.stride < visible_row_bytes {
        return Err(
            FrameValidationError::PlaneStrideTooSmall {
                index,
                stride: layout.stride,
                visible_row_bytes,
            },
        );
    }
    let expected_len = saturating_mul(layout.stride, height);
    if layout.len < expected_len {
        return Err(FrameValidationError::PlaneLenTooSmall { index, len: layout.len, expected_len });
    }
    Ok(())
}

/// The layout at `i`, if there is one.
pub open spec fn layout_at(layouts: Seq<PlaneLayout>, i: int) -> Option<PlaneLayout> {
    if 0 <= i < layouts.len() {
        Some(layouts[i])
    } else {
        None
    }
}

/// The check of plane `i` against the format's visible geometry.
pub open spec fn plane_check_at(layouts: Seq<PlaneLayout>, info: FrameLayoutInfo, width: int, height: int, i: int) -> Result<(), FrameValidationError> {
    match plane_row_bytes(info, width, i) {
        None => Err(FrameValidationError::UnknownStorageLayout),
        Some(rb) => match plane_rows(info, height, i) {
            None => Err(FrameValidationError::UnknownStorageLayout),
            Some(rows) => plane_check(i as usize, layout_at(layouts, i), rb, rows),
        },
    }
}

/// The first failing check among planes `0..n`.
pub open spec fn planes_check_upto(layouts: Seq<PlaneLayout>, info: FrameLayoutInfo, width: int, height: int, n: nat) -> Result<(), FrameValidationError>
    decreases n,
{
    if n == 0 {
        Ok(())
    } else {
        match planes_check_upto(layouts, info, width, height, (n - 1) as nat) {
            Err(e) => Err(e),
            Ok(_) => plane_check_at(layouts, info, width, height, n - 1),
        }
    }
}

/// Once a plane fails, every longer prefix fails the same way.
proof fn lemma_check_failure_persists(
    layouts: Seq<PlaneLayout>,
    info: FrameLayoutInfo,
    width: int,
    height: int,
    i: nat,
    n: nat,
)
    requires
        i < n,
        planes_check_upto(layouts, info, width, height, i) == Ok::<(), FrameValidationError>(()),
        plane_check_at(layouts, info, width, height, i as int) is Err,
    ensures
        planes_check_upto(layouts, info, width, height, n) == plane_check_at(
            layouts,
            info,
            width,
            height,
            i as int,
        ),
    decreases n,
{
    if n > i + 1 {
        lemma_check_failure_persists(layouts, info, width, height, i, (n - 1) as nat);
    }
}

/// The checks a frame's layouts must pass for its storage kind.
pub open spec fn layouts_check(layouts: Seq<PlaneLayout>, info: FrameLayoutInfo, width: int, height: int) -> Result<(), FrameValidationError> {
    match info.storage {
        FrameStorageKind::Compressed => if layouts.len() == 0 {
            Err(FrameValidationError::NoPlanes)
        } else {
            Ok(())
        },
        FrameStorageKind::OpaqueGpu | FrameStorageKind::Unknown => Err(
            FrameValidationError::UnknownStorageLayout,
        ),
        _ => planes_check_upto(layouts, info, width, height, info.planes.planes as nat),
    }
}

/// Check every plane the format has against the layouts.
pub fn validate_layouts_for_info(
    layouts: &Vec<PlaneLayout>,
    info: FrameLayoutInfo,
    width: usize,
    height: usize,
) -> (r: Result<(), FrameValidationError>)
    ensures
        r == layouts_check(layouts@, info, width as int, height as int),
{
    match info.storage {
        FrameStorageKind::Compressed => if layouts.len() == 0 {
            Err(FrameValidationError::NoPlanes)
        } else {
            Ok(())
        },
        FrameStorageKind::OpaqueGpu | FrameStorageKind::Unknown => Err(
            FrameValidationError::UnknownStorageLayout,
        ),
        _ => {
            let mut index: usize = 0;
            while index < info.planes.planes
                invariant
                    index <= info.planes.planes,
                    layouts_check(layouts@, info, width as int, height as int) == planes_check_upto(
                        layouts@,
                        info,
                        width as int,
                        height as int,
                        info.planes.planes as nat,
                    ),
                    planes_check_upto(layouts@, info, width as int, height as int, index as nat)
                        == Ok::<(), FrameValidationError>(()),
                decreases info.planes.planes - index,
            {
                let ghost ls = layouts@;
                let ghost nplanes = info.planes.planes as nat;
                let row_bytes = match visible_row_bytes_for_plane(info, width, index) {
                    Some(rb) => rb,
                    None => {
                        proof {
                            lemma_check_failure_persists(ls, info, width as int, height as int, index as nat, nplanes);
                        }
                        return Err(FrameValidationError::UnknownStorageLayout);
                    },
                };
                let rows = match visible_rows_for_plane(info, height, index) {
                    Some(rows) => rows,
                    None => {
                        proof {
                            lemma_check_failure_persists(ls, info, width as int, height as int, index as nat, nplanes);
                        }
                        return Err(FrameValidationError::UnknownStorageLayout);
                    },
                };
                let layout = if index < layouts.len() {
                    Some(&layouts[index])
                } else {
                    None
                };
                match validate_plane_layout(index, layout, row_bytes, rows) {
                    Ok(()) => {},
                    Err(e) => {
                        proof {
                            lemma_check_failure_persists(ls, info, width as int, height as int, index as nat, nplanes);
                        }
                        return Err(e);
                    },
                }
                index = index + 1;
            }
            Ok(())
        },
    }
}

/// Two layouts share at least one byte.
pub open spec fn ranges_overlap(a: PlaneLayout, b: PlaneLayout) -> bool {
    a.offset < layout_end(b) && b.offset < layout_end(a)
}

/// No two distinct planes share a byte.
pub open spec fn no_overlaps(layouts: Seq<PlaneLayout>) -> bool {
    forall|i: int, j: int|
        0 <= i < j < layouts.len() ==> !ranges_overlap(#[trigger] layouts[i], #[trigger] layouts[j])
}

/// The pair `(left, right)` overlaps and is the first such pair in order.
pub open spec fn first_overlap(layouts: Seq<PlaneLayout>, left: int, right: int) -> bool {
    &&& 0 <= left < right < layouts.len()
    &&& ranges_overlap(layouts[left], layouts[right])
    &&& forall|i: int, j: int|
        0 <= i < left && i < j < layouts.len() ==> !ranges_overlap(
            #[trigger] layouts[i],
            #[trigger] layouts[j],
        )
    &&& forall|j: int| left < j < right ==> !ranges_overlap(layouts[left], #[trigger] layouts[j])
}

/// Planes that share one address space must not overlap.
pub fn validate_plane_ranges_do_not_overlap(layouts: &Vec<PlaneLayout>) -> (r: Result<
    (),
    FrameValidationError,
>)
    ensures
        r is Ok <==> no_overlaps(layouts@),
        r is Err ==> (r matches Err(FrameValidationError::PlaneRangeOverlap { left, right })
            && first_overlap(layouts@, left as int, right as int)),
{
    let n = layouts.len();
    let mut left: usize = 0;
    while left < n
        invariant
            n == layouts@.len(),
            left <= n,
            forall|i: int, j: int|
                0 <= i < left && i < j < n ==> !ranges_overlap(
                    #[trigger] layouts@[i],
                    #[trigger] layouts@[j],
                ),
        decreases n - left,
    {
        let l = layouts[left];
        let left_end = l.offset.saturating_add(l.len);
        let mut right: usize = left + 1;
        while right < n
            invariant
                n == layouts@.len(),
                left < n,
                left + 1 <= right <= n,
                l == layouts@[left as int],
                left_end == layout_end(l),
                forall|i: int, j: int|
                    0 <= i < left && i < j < n ==> !ranges_overlap(
                        #[trigger] layouts@[i],
                        #[trigger] layouts@[j],
                    ),
                forall|j: int|
                    left < j < right ==> !ranges_overlap(layouts@[left as int], #[trigger] layouts@[j]),
            decreases n - right,
        {
            let rl = layouts[right];
            let right_end = rl.offset.saturating_add(rl.len);
            if l.offset < right_end && rl.offset < left_end {
                return Err(FrameValidationError::PlaneRangeOverlap { left, right });
            }
            right = right + 1;
        }
        left = left + 1;
    }
    Ok(())
}

/// Where a host-owned frame of `code` lives: compressed codes are packets.
pub open spec fn owned_residency(code: FourCc) -> FrameResidency {
    if crate::format::is_compressed_code(code) {
        FrameResidency::CompressedPacket
    } else {
        FrameResidency::HostOwned
    }
}

/// Residency of a host-owned frame of `code`.
pub fn default_owned_residency(code: FourCc) -> (r: FrameResidency)
    ensures
        r == owned_residency(code),
{
    if code.is_compressed() {
        FrameResidency::CompressedPacket
    } else {
        FrameResidency::HostOwned
    }
}


/// The visible geometry and layout of plane `i` of a frame of `format`.
pub open spec fn plane_shape_spec(format: MediaFormat, layouts: Seq<PlaneLayout>, i: int) -> Result<FramePlaneShape, FrameValidationError> {
    let w = format.resolution.width@ as int;
    let h = format.resolution.height@ as int;
    let info = layout_info_of(format.code);
    if !(0 <= i < layouts.len()) {
        Err(FrameValidationError::NoPlanes)
    } else {
        match plane_row_bytes(info, w, i) {
            None => Err(FrameValidationError::UnknownStorageLayout),
            Some(rb) => match plane_rows(info, h, i) {
                None => Err(FrameValidationError::UnknownStorageLayout),
                Some(rows) => match plane_width(info, w, i) {
                    None => Err(FrameValidationError::UnknownStorageLayout),
                    Some(pw) => Ok(
                        FramePlaneShape {
                            width: pw,
                            height: rows,
                            row_bytes: rb,
                            stride: layouts[i].stride,
                            offset: layouts[i].offset,
                            len: layouts[i].len,
                        },
                    ),
                },
            },
        }
    }
}

/// Visible bytes of planes `0..n`, or the first error.
pub open spec fn visible_bytes_upto(format: MediaFormat, layouts: Seq<PlaneLayout>, n: nat) -> Result<int, FrameValidationError>
    decreases n,
{
    if n == 0 {
        Ok(0)
    } else {
        match visible_bytes_upto(format, layouts, (n - 1) as nat) {
            Err(e) => Err(e),
            Ok(b) => match plane_shape_spec(format, layouts, n - 1) {
                Err(e) => Err(e),
                Ok(s) => if b + sat_mul(s.row_bytes as int, s.height as int) > usize::MAX {
                    Err(FrameValidationError::UnknownStorageLayout)
                } else {
                    Ok(b + sat_mul(s.row_bytes as int, s.height as int))
                },
            },
        }
    }
}

/// A plane is tight when its rows follow one another with no padding.
pub open spec fn shape_is_tight(s: FramePlaneShape) -> bool {
    s.stride == s.row_bytes && s.len >= sat_mul(s.row_bytes as int, s.height as int)
}

/// Whether planes `0..n` are all tight, or the first error.
pub open spec fn tight_upto(format: MediaFormat, layouts: Seq<PlaneLayout>, n: nat) -> Result<bool, FrameValidationError>
    decreases n,
{
    if n == 0 {
        Ok(true)
    } else {
        match tight_upto(format, layouts, (n - 1) as nat) {
            Err(e) => Err(e),
            Ok(false) => Ok(false),
            Ok(true) => match plane_shape_spec(format, layouts, n - 1) {
                Err(e) => Err(e),
                Ok(s) => Ok(shape_is_tight(s)),
            },
        }
    }
}

/// Sum of the plane lengths of `layouts[0..n]`.
pub open spec fn lens_sum(layouts: Seq<PlaneLayout>, n: nat) -> int
    decreases n,
{
    if n == 0 {
        0
    } else {
        lens_sum(layouts, (n - 1) as nat) + layouts[n - 1].len
    }
}

/// Largest plane end among `layouts[0..n]`, 0 when there is none.
pub open spec fn span_upto(layouts: Seq<PlaneLayout>, n: nat) -> int
    decreases n,
{
    if n == 0 {
        0
    } else {
        let prev = span_upto(layouts, (n - 1) as nat);
        let end = layout_end(layouts[n - 1]);
        if end > prev {
            end
        } else {
            prev
        }
    }
}

/// Readable from the host: owned, external host memory or a packet.
pub open spec fn readable_residency(r: FrameResidency) -> bool {
    r == FrameResidency::HostOwned || r == FrameResidency::HostExternal || r
        == FrameResidency::CompressedPacket
}

/// Serializable description of a frame's format, timestamp and planes.
#[derive(Debug, Clone, PartialEq, Eq)]
pub struct FrameLeaseDescriptor {
    pub width: u32,
    pub height: u32,
    pub fourcc: FourCc,
    pub timestamp: u64,
    pub color: ColorSpace,
    pub planes: Vec<FramePlaneDescriptor>,
}

impl FrameLeaseDescriptor {
    /// Metadata the descriptor stands for; `None` when a dimension is zero.
    pub fn to_meta(&self) -> (r: Option<FrameMeta>)
        ensures
            r is None <==> (self.width == 0 || self.height == 0),
            r matches Some(m) ==> m.format.code == self.fourcc && m.format.resolution.width@
                == self.width && m.format.resolution.height@ == self.height && m.format.color
                == self.color && m.timestamp == self.timestamp && m.backend is None
                && m.capture_instant is None && m.residency is None && m.mutability
                == FrameMutability::Mutable && m.last_transition is None,
    {
        let resolution = match Resolution::new(self.width, self.height) {
            Some(r) => r,
            None => return None,
        };
        let format = MediaFormat::new(self.fourcc, resolution, self.color);
        Some(FrameMeta::new(format, self.timestamp))
    }

    /// Plane layouts the descriptor stands for, in order.
    pub fn layouts(&self) -> (r: Vec<PlaneLayout>)
        ensures
            r@.len() == self.planes@.len(),
            forall|i: int|
                0 <= i < r@.len() ==> #[trigger] r@[i] == (PlaneLayout {
                    offset: self.planes@[i].offset,
                    len: self.planes@[i].len,
                    stride: self.planes@[i].stride,
                }),
    {
        let mut out: Vec<PlaneLayout> = Vec::new();
        let mut i: usize = 0;
        while i < self.planes.len()
            invariant
                i <= self.planes@.len(),
                out@.len() == i,
                forall|k: int|
                    0 <= k < i ==> #[trigger] out@[k] == (PlaneLayout {
                        offset: self.planes@[k].offset,
                        len: self.planes@[k].len,
                        stride: self.planes@[k].stride,
                    }),
            decreases self.planes@.len() - i,
        {
            let p = self.planes[i];
            out.push(PlaneLayout { offset: p.offset, len: p.len, stride: p.stride });
            i = i + 1;
        }
        out
    }
}

/// A frame's metadata and plane layouts, and the residency its external
/// backing reports when the bytes are not owned by the frame.
///
/// This is everything about a frame but its bytes: what the frame is, where
/// each plane lies in its buffer and what the frame may be used for.
#[derive(Debug, Clone)]
pub struct FrameHeader {
    pub meta: FrameMeta,
    pub layouts: Vec<PlaneLayout>,
    /// The backing's own residency, for frames over external memory.
    pub external: Option<FrameResidency>,
}

impl FrameHeader {
    /// A frame that owns its buffers; an unset residency defaults to the
    /// code's owned residency.
    pub fn owned(meta: FrameMeta, layouts: Vec<PlaneLayout>) -> (r: Self)
        ensures
            r.meta == (FrameMeta {
                residency: Some(
                    match meta.residency {
                        Some(res) => res,
                        None => owned_residency(meta.format.code),
                    },
                ),
                ..meta
            }),
            r.layouts@ == layouts@,
            r.external is None,
    {
        let residency = match meta.residency {
            Some(res) => res,
            None => default_owned_residency(meta.format.code),
        };
        FrameHeader { meta: FrameMeta { residency: Some(residency), ..meta }, layouts, external: None }
    }

    /// A frame over external memory: read-only, residency defaulting to the
    /// backing's.
    pub fn over_external(
        meta: FrameMeta,
        layouts: Vec<PlaneLayout>,
        backing_residency: FrameResidency,
    ) -> (r: Self)
        ensures
            r.meta == (FrameMeta {
                residency: Some(
                    match meta.residency {
                        Some(res) => res,
                        None => backing_residency,
                    },
                ),
                mutability: FrameMutability::ReadOnly,
                ..meta
            }),
            r.layouts@ == layouts@,
            r.external == Some(backing_residency),
    {
        let residency = match meta.residency {
            Some(res) => res,
            None => backing_residency,
        };
        FrameHeader {
            meta: FrameMeta {
                residency: Some(residency),
                mutability: FrameMutability::ReadOnly,
                ..meta
            },
            layouts,
            external: Some(backing_residency),
        }
    }

    /// Where the payload lives.
    pub open spec fn residency_spec(&self) -> FrameResidency {
        match self.meta.residency {
            Some(r) => r,
            None => match self.external {
                Some(r) => r,
                None => owned_residency(self.meta.format.code),
            },
        }
    }

    /// Whether the bytes live in external memory.
    pub fn is_external(&self) -> (r: bool)
        ensures
            r == self.external is Some,
    {
        self.external.is_some()
    }

    /// Where the payload lives.
    pub fn residency(&self) -> (r: FrameResidency)
        ensures
            r == self.residency_spec(),
    {
        match self.meta.residency {
            Some(r) => r,
            None => match self.external {
                Some(r) => r,
                None => default_owned_residency(self.meta.format.code),
            },
        }
    }

    /// The mutability contract.
    pub fn mutability(&self) -> (r: FrameMutability)
        ensures
            r == self.meta.mutability,
    {
        self.meta.mutability
    }

    /// Whether the host can read the plane bytes.
    pub fn has_host_readable_bytes(&self) -> (r: bool)
        ensures
            r == readable_residency(self.residency_spec()),
    {
        let res = self.residency();
        res == FrameResidency::HostOwned || res == FrameResidency::HostExternal || res
            == FrameResidency::CompressedPacket
    }

    /// Whether the host may write the plane bytes: owned bytes of a mutable frame.
    pub fn has_host_writable_bytes(&self) -> (r: bool)
        ensures
            r == ((self.residency_spec() == FrameResidency::HostOwned || self.residency_spec()
                == FrameResidency::CompressedPacket) && self.meta.mutability
                == FrameMutability::Mutable && self.external is None),
    {
        let res = self.residency();
        (res == FrameResidency::HostOwned || res == FrameResidency::CompressedPacket)
            && self.meta.mutability == FrameMutability::Mutable && self.external.is_none()
    }

    /// Same as [`Self::has_host_readable_bytes`].
    pub fn can_read_planes(&self) -> (r: bool)
        ensures
            r == readable_residency(self.residency_spec()),
    {
        self.has_host_readable_bytes()
    }

    /// Same as [`Self::has_host_writable_bytes`].
    pub fn can_write_planes(&self) -> (r: bool)
        ensures
            r == ((self.residency_spec() == FrameResidency::HostOwned || self.residency_spec()
                == FrameResidency::CompressedPacket) && self.meta.mutability
                == FrameMutability::Mutable && self.external is None),
    {
        self.has_host_writable_bytes()
    }

    /// Owned host bytes can be taken over without copying.
    pub fn can_materialize_without_copy(&self) -> (r: bool)
        ensures
            r == (self.residency_spec() == FrameResidency::HostOwned && self.external is None),
    {
        self.residency() == FrameResidency::HostOwned && self.external.is_none()
    }

    /// `Ok` when the host can read the bytes.
    pub fn require_host_readable(&self) -> (r: Result<(), FrameValidationError>)
        ensures
            readable_residency(self.residency_spec()) ==> r is Ok,
            !readable_residency(self.residency_spec()) ==> r == Err::<(), FrameValidationError>(
                FrameValidationError::NotHostReadable(self.residency_spec()),
            ),
    {
        if self.has_host_readable_bytes() {
            Ok(())
        } else {
            Err(FrameValidationError::NotHostReadable(self.residency()))
        }
    }

    /// `Ok` when the host may write the bytes; a read-only frame is refused
    /// for its mutability first.
    pub fn require_host_writable(&self) -> (r: Result<(), FrameValidationError>)
        ensures
            self.meta.mutability != FrameMutability::Mutable ==> r == Err::<
                (),
                FrameValidationError,
            >(FrameValidationError::NotMutable(self.meta.mutability)),
            self.meta.mutability == FrameMutability::Mutable ==> ((
            self.residency_spec() == FrameResidency::HostOwned || self.residency_spec()
                == FrameResidency::CompressedPacket) && self.external is None ==> r is Ok),
            self.meta.mutability == FrameMutability::Mutable ==> (!((self.residency_spec()
                == FrameResidency::HostOwned || self.residency_spec()
                == FrameResidency::CompressedPacket) && self.external is None) ==> r == Err::<
                (),
                FrameValidationError,
            >(FrameValidationError::NotHostWritable(self.residency_spec()))),
    {
        if self.meta.mutability != FrameMutability::Mutable {
            return Err(FrameValidationError::NotMutable(self.meta.mutability));
        }
        if self.has_host_writable_bytes() {
            Ok(())
        } else {
            Err(FrameValidationError::NotHostWritable(self.residency()))
        }
    }

    /// Storage layout of the frame's code.
    pub fn layout_info(&self) -> (r: FrameLayoutInfo)
        ensures
            r == layout_info_of(self.meta.format.code),
    {
        self.meta.format.code.layout_info()
    }

    /// Visible bytes per row of the first plane.
    pub fn first_plane_visible_row_bytes(&self) -> (r: Option<usize>)
        ensures
            r == first_plane_row_bytes_spec(
                layout_info_of(self.meta.format.code),
                self.meta.format.resolution.width@ as int,
            ),
    {
        let width = self.meta.format.resolution.width.get() as usize;
        self.layout_info().first_plane_visible_row_bytes(width)
    }

    /// Visible geometry and layout of one plane.
    pub fn plane_shape(&self, plane_index: usize) -> (r: Result<FramePlaneShape, FrameValidationError>)
        ensures
            r == plane_shape_spec(self.meta.format, self.layouts@, plane_index as int),
    {
        let format = self.meta.format;
        let width = format.resolution.width.get() as usize;
        let height = format.resolution.height.get() as usize;
        let info = self.layout_info();
        if plane_index >= self.layouts.len() {
            return Err(FrameValidationError::NoPlanes);
        }
        let layout = self.layouts[plane_index];
        let row_bytes = match visible_row_bytes_for_plane(info, width, plane_index) {
            Some(rb) => rb,
            None => return Err(FrameValidationError::UnknownStorageLayout),
        };
        let rows = match visible_rows_for_plane(info, height, plane_index) {
            Some(rows) => rows,
            None => return Err(FrameValidationError::UnknownStorageLayout),
        };
        let plane_width = match visible_width_for_plane(info, width, plane_index) {
            Some(w) => w,
            None => return Err(FrameValidationError::UnknownStorageLayout),
        };
        Ok(
            FramePlaneShape {
                width: plane_width,
                height: rows,
                row_bytes,
                stride: layout.stride,
                offset: layout.offset,
                len: layout.len,
            },
        )
    }

    /// Sum over planes of the visible row bytes times visible rows.
    pub fn visible_payload_bytes(&self) -> (r: Result<usize, FrameValidationError>)
        ensures
            match visible_bytes_upto(self.meta.format, self.layouts@, self.layouts@.len()) {
                Ok(b) => r == Ok::<usize, FrameValidationError>(b as usize),
                Err(e) => r == Err::<usize, FrameValidationError>(e),
            },
    {
        let mut bytes: usize = 0;
        let mut index: usize = 0;
        while index < self.layouts.len()
            invariant
                index <= self.layouts@.len(),
                visible_bytes_upto(self.meta.format, self.layouts@, index as nat) == Ok::<
                    int,
                    FrameValidationError,
                >(bytes as int),
            decreases self.layouts@.len() - index,
        {
            let shape = match self.plane_shape(index) {
                Ok(s) => s,
                Err(e) => {
                    proof {
                        lemma_visible_failure_persists(
                            self.meta.format,
                            self.layouts@,
                            index as nat,
                            self.layouts@.len(),
                        );
                    }
                    return Err(e);
                },
            };
            let add = saturating_mul(shape.row_bytes, shape.height);
            bytes = match bytes.checked_add(add) {
                Some(b) => b,
                None => {
                    proof {
                        lemma_visible_failure_persists(
                            self.meta.format,
                            self.layouts@,
                            index as nat,
                            self.layouts@.len(),
                        );
                    }
                    return Err(FrameValidationError::UnknownStorageLayout);
                },
            };
            index = index + 1;
        }
        Ok(bytes)
    }

    /// Whether every plane's rows follow one another with no padding.
    pub fn is_tightly_packed(&self) -> (r: Result<bool, FrameValidationError>)
        ensures
            r == tight_upto(self.meta.format, self.layouts@, self.layouts@.len()),
    {
        let mut index: usize = 0;
        while index < self.layouts.len()
            invariant
                index <= self.layouts@.len(),
                tight_upto(self.meta.format, self.layouts@, index as nat) == Ok::<
                    bool,
                    FrameValidationError,
                >(true),
            decreases self.layouts@.len() - index,
        {
            let shape = match self.plane_shape(index) {
                Ok(s) => s,
                Err(e) => {
                    proof {
                        lemma_tight_settled(self.meta.format, self.layouts@, (index + 1) as nat, self.layouts@.len());
                    }
                    return Err(e);
                },
            };
            if shape.stride != shape.row_bytes || shape.len < saturating_mul(
                shape.row_bytes,
                shape.height,
            ) {
                proof {
                    lemma_tight_settled(self.meta.format, self.layouts@, (index + 1) as nat, self.layouts@.len());
                }
                return Ok(false);
            }
            index = index + 1;
        }
        Ok(true)
    }

    /// Sum of the plane lengths.
    pub fn payload_bytes(&self) -> (r: usize)
        requires
            lens_sum(self.layouts@, self.layouts@.len()) <= usize::MAX,
        ensures
            r == lens_sum(self.layouts@, self.layouts@.len()),
    {
        let mut total: usize = 0;
        let mut index: usize = 0;
        while index < self.layouts.len()
            invariant
                index <= self.layouts@.len(),
                total == lens_sum(self.layouts@, index as nat),
                lens_sum(self.layouts@, self.layouts@.len()) <= usize::MAX,
            decreases self.layouts@.len() - index,
        {
            proof {
                lemma_lens_sum_monotone(self.layouts@, (index + 1) as nat, self.layouts@.len());
            }
            total = total + self.layouts[index].len;
            index = index + 1;
        }
        total
    }

    /// Bytes from the start of the shared buffer to the end of the furthest plane.
    pub fn backing_span_len(&self) -> (r: usize)
        ensures
            r == span_upto(self.layouts@, self.layouts@.len()),
    {
        let mut span: usize = 0;
        let mut index: usize = 0;
        while index < self.layouts.len()
            invariant
                index <= self.layouts@.len(),
                span == span_upto(self.layouts@, index as nat),
            decreases self.layouts@.len() - index,
        {
            let l = self.layouts[index];
            let end = l.offset.saturating_add(l.len);
            if end > span {
                span = end;
            }
            index = index + 1;
        }
        span
    }

    /// Check the layouts against the format: non-zero dimensions, the
    /// format's plane count, each plane's stride and length, and, when the
    /// planes share one address space, that no two overlap.
    pub fn validate_plane_layouts(&self, shared_address_space: bool) -> (r: Result<(), FrameValidationError>)
        ensures
            validate_spec(self.meta.format, self.layouts@) is Err ==> r == validate_spec(
                self.meta.format,
                self.layouts@,
            ),
            validate_spec(self.meta.format, self.layouts@) is Ok ==> (r is Ok <==> (
            !shared_address_space || no_overlaps(self.layouts@))),
            validate_spec(self.meta.format, self.layouts@) is Ok && r is Err ==> (r matches Err(
                FrameValidationError::PlaneRangeOverlap { left, right },
            ) && first_overlap(self.layouts@, left as int, right as int)),
    {
        let format = self.meta.format;
        let width = format.resolution.width.get() as usize;
        let height = format.resolution.height.get() as usize;
        let info = self.layout_info();
        if info.planes.planes > 0 && self.layouts.len() != info.planes.planes {
            return Err(
                FrameValidationError::PlaneCountMismatch {
                    expected: info.planes.planes,
                    actual: self.layouts.len(),
                },
            );
        }
        validate_layouts_for_info(&self.layouts, info, width, height)?;
        if shared_address_space {
            validate_plane_ranges_do_not_overlap(&self.layouts)?;
        }
        Ok(())
    }

    /// Header of a new host-owned frame as `allocation` asks, with the
    /// format's default layouts.
    pub fn allocate(allocation: FrameAllocation) -> (r: Result<Self, FrameValidationError>)
        ensures
            allocation.residency != FrameResidency::HostOwned ==> r == Err::<
                Self,
                FrameValidationError,
            >(FrameValidationError::UnsupportedAllocationResidency(allocation.residency)),
            allocation.residency == FrameResidency::HostOwned && alignments_check(
                allocation.stride_alignment,
                allocation.plane_alignment,
            ) is Err ==> r == Err::<Self, FrameValidationError>(
                alignments_check(allocation.stride_alignment, allocation.plane_alignment)->Err_0,
            ),
            allocation.residency == FrameResidency::HostOwned && alignments_check(
                allocation.stride_alignment,
                allocation.plane_alignment,
            ) is Ok ==> match default_layouts_spec(
                allocation.format,
                allocation.stride_alignment,
                allocation.plane_alignment,
            ) {
                Err(e) => r matches Err(re) && re == e,
                Ok(ls) => r matches Ok(h) && h.layouts@ == ls && h.external is None
                    && h.meta.format == allocation.format && h.meta.timestamp
                    == allocation.timestamp && h.meta.residency == Some(FrameResidency::HostOwned)
                    && h.meta.mutability == allocation.mutability && h.meta.backend is None
                    && h.meta.capture_instant is None && h.meta.last_transition is None,
            },
    {
        if allocation.residency != FrameResidency::HostOwned {
            return Err(FrameValidationError::UnsupportedAllocationResidency(allocation.residency));
        }
        let meta = FrameMeta::new(allocation.format, allocation.timestamp).with_residency(
            FrameResidency::HostOwned,
        ).with_mutability(allocation.mutability);
        validate_alignment(allocation.stride_alignment)?;
        validate_alignment(allocation.plane_alignment)?;
        let layouts = default_layouts_for_format(
            allocation.format,
            allocation.stride_alignment,
            allocation.plane_alignment,
        )?;
        Ok(FrameHeader::owned(meta, layouts))
    }

    /// Header of a new mutable host-owned frame of `format` with default layouts.
    pub fn allocate_host_owned(format: MediaFormat, timestamp: u64) -> (r: Result<
        Self,
        FrameValidationError,
    >)
        ensures
            match default_layouts_spec(format, None, None) {
                Err(e) => r matches Err(re) && re == e,
                Ok(ls) => r matches Ok(h) && h.layouts@ == ls && h.external is None
                    && h.meta.format == format && h.meta.timestamp == timestamp
                    && h.meta.residency == Some(FrameResidency::HostOwned) && h.meta.mutability
                    == FrameMutability::Mutable,
            },
    {
        Self::allocate(
            FrameAllocation {
                format,
                timestamp,
                mutability: FrameMutability::Mutable,
                residency: FrameResidency::HostOwned,
                stride_alignment: None,
                plane_alignment: None,
            },
        )
    }

    /// Header of a new host-owned frame with this frame's format, timestamp,
    /// mutability and plane layouts.
    pub fn allocate_same_layout(&self) -> (r: Result<Self, FrameValidationError>)
        ensures
            match default_layouts_spec(self.meta.format, None, None) {
                Err(e) => r matches Err(re) && re == e,
                Ok(_) => r matches Ok(h) && h.layouts@ == self.layouts@ && h.external is None
                    && h.meta.format == self.meta.format && h.meta.timestamp
                    == self.meta.timestamp && h.meta.residency == Some(FrameResidency::HostOwned)
                    && h.meta.mutability == self.meta.mutability,
            },
    {
        let mut frame = Self::allocate(
            FrameAllocation {
                format: self.meta.format,
                timestamp: self.meta.timestamp,
                mutability: self.meta.mutability,
                residency: FrameResidency::HostOwned,
                stride_alignment: None,
                plane_alignment: None,
            },
        )?;
        frame.layouts = self.layouts.clone();
        Ok(frame)
    }

    /// Header of a new mutable host-owned frame of `format` at this frame's timestamp.
    pub fn allocate_like(&self, format: MediaFormat) -> (r: Result<Self, FrameValidationError>)
        ensures
            match default_layouts_spec(format, None, None) {
                Err(e) => r matches Err(re) && re == e,
                Ok(ls) => r matches Ok(h) && h.layouts@ == ls && h.external is None
                    && h.meta.format == format && h.meta.timestamp == self.meta.timestamp
                    && h.meta.residency == Some(FrameResidency::HostOwned) && h.meta.mutability
                    == FrameMutability::Mutable,
            },
    {
        Self::allocate(
            FrameAllocation {
                format,
                timestamp: self.meta.timestamp,
                mutability: FrameMutability::Mutable,
                residency: FrameResidency::HostOwned,
                stride_alignment: None,
                plane_alignment: None,
            },
        )
    }

    /// As [`Self::allocate_same_layout`] with another timestamp.
    pub fn allocate_like_layout_with_timestamp(&self, timestamp: u64) -> (r: Result<
        Self,
        FrameValidationError,
    >)
        ensures
            match default_layouts_spec(self.meta.format, None, None) {
                Err(e) => r matches Err(re) && re == e,
                Ok(_) => r matches Ok(h) && h.layouts@ == self.layouts@ && h.external is None
                    && h.meta.format == self.meta.format && h.meta.timestamp == timestamp
                    && h.meta.residency == Some(FrameResidency::HostOwned) && h.meta.mutability
                    == self.meta.mutability,
            },
    {
        let mut frame = self.allocate_same_layout()?;
        frame.meta.timestamp = timestamp;
        Ok(frame)
    }

    /// Header of an owned, mutable host copy of this frame.
    pub fn materialized(&self) -> (r: Self)
        ensures
            r.meta == (FrameMeta {
                residency: Some(FrameResidency::HostOwned),
                mutability: FrameMutability::Mutable,
                ..self.meta
            }),
            r.layouts@ == self.layouts@,
            r.external is None,
    {
        FrameHeader {
            meta: FrameMeta {
                residency: Some(FrameResidency::HostOwned),
                mutability: FrameMutability::Mutable,
                ..self.meta
            },
            layouts: self.layouts.clone(),
            external: None,
        }
    }

    /// The serializable descriptor of this frame.
    pub fn descriptor(&self) -> (r: FrameLeaseDescriptor)
        ensures
            r.width == self.meta.format.resolution.width@,
            r.height == self.meta.format.resolution.height@,
            r.fourcc == self.meta.format.code,
            r.timestamp == self.meta.timestamp,
            r.color == self.meta.format.color,
            r.planes@.len() == self.layouts@.len(),
            forall|i: int|
                0 <= i < r.planes@.len() ==> #[trigger] r.planes@[i] == (FramePlaneDescriptor {
                    offset: self.layouts@[i].offset,
                    len: self.layouts@[i].len,
                    stride: self.layouts@[i].stride,
                }),
    {
        let format = self.meta.format;
        let mut planes: Vec<FramePlaneDescriptor> = Vec::new();
        let mut i: usize = 0;
        while i < self.layouts.len()
            invariant
                i <= self.layouts@.len(),
                planes@.len() == i,
                forall|k: int|
                    0 <= k < i ==> #[trigger] planes@[k] == (FramePlaneDescriptor {
                        offset: self.layouts@[k].offset,
                        len: self.layouts@[k].len,
                        stride: self.layouts@[k].stride,
                    }),
            decreases self.layouts@.len() - i,
        {
            let l = self.layouts[i];
            planes.push(FramePlaneDescriptor { offset: l.offset, len: l.len, stride: l.stride });
            i = i + 1;
        }
        FrameLeaseDescriptor {
            width: format.resolution.width.get(),
            height: format.resolution.height.get(),
            fourcc: format.code,
            timestamp: self.meta.timestamp,
            color: format.color,
            planes,
        }
    }
}

/// What validating a frame's layouts yields, up to the overlap check.
pub open spec fn validate_spec(format: MediaFormat, layouts: Seq<PlaneLayout>) -> Result<(), FrameValidationError> {
    let info = layout_info_of(format.code);
    if info.planes.planes > 0 && layouts.len() != info.planes.planes {
        Err(
            FrameValidationError::PlaneCountMismatch {
                expected: info.planes.planes,
                actual: layouts.len() as usize,
            },
        )
    } else {
        layouts_check(
            layouts,
            info,
            format.resolution.width@ as int,
            format.resolution.height@ as int,
        )
    }
}

proof fn lemma_visible_failure_persists(format: MediaFormat, layouts: Seq<PlaneLayout>, i: nat, n: nat)
    requires
        i < n,
        visible_bytes_upto(format, layouts, i) is Ok,
        visible_bytes_upto(format, layouts, i + 1) is Err,
    ensures
        visible_bytes_upto(format, layouts, n) == visible_bytes_upto(format, layouts, i + 1),
    decreases n,
{
    if n > i + 1 {
        lemma_visible_failure_persists(format, layouts, i, (n - 1) as nat);
    }
}

proof fn lemma_tight_settled(format: MediaFormat, layouts: Seq<PlaneLayout>, i: nat, n: nat)
    requires
        i <= n,
        tight_upto(format, layouts, i) != Ok::<bool, FrameValidationError>(true),
    ensures
        tight_upto(format, layouts, n) == tight_upto(format, layouts, i),
    decreases n,
{
    if n > i {
        lemma_tight_settled(format, layouts, i, (n - 1) as nat);
    }
}

proof fn lemma_lens_sum_monotone(layouts: Seq<PlaneLayout>, i: nat, n: nat)
    requires
        i <= n <= layouts.len(),
    ensures
        lens_sum(layouts, i) <= lens_sum(layouts, n),
    decreases n,
{
    if n > i {
        lemma_lens_sum_monotone(layouts, i, (n - 1) as nat);
    }
}


/// A frame descriptor round-trips the frame's plane layouts: the layouts
/// `FrameLeaseDescriptor::layouts` gives back from the planes
/// `FrameHeader::descriptor` recorded are the frame's own, in order.
pub proof fn lemma_descriptor_round_trip(
    layouts: Seq<PlaneLayout>,
    planes: Seq<FramePlaneDescriptor>,
    back: Seq<PlaneLayout>,
)
    requires
        planes.len() == layouts.len(),
        forall|i: int|
            0 <= i < planes.len() ==> #[trigger] planes[i] == (FramePlaneDescriptor {
                offset: layouts[i].offset,
                len: layouts[i].len,
                stride: layouts[i].stride,
            }),
        back.len() == planes.len(),
        forall|i: int|
            0 <= i < back.len() ==> #[trigger] back[i] == (PlaneLayout {
                offset: planes[i].offset,
                len: planes[i].len,
                stride: planes[i].stride,
            }),
    ensures
        back == layouts,
{
    assert forall|i: int| 0 <= i < back.len() implies back[i] == layouts[i] by {
        assert(planes[i] == (FramePlaneDescriptor {
            offset: layouts[i].offset,
            len: layouts[i].len,
            stride: layouts[i].stride,
        }));
    }
    assert(back =~= layouts);
}

} // verus!
