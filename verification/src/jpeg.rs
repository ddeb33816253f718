//! JPEG streams: dropping the application (APPn) segments before the scan,
//! which some hardware decoders choke on, and the packed input a JPEG
//! encoder takes from a frame.
use vstd::prelude::*;

use crate::format::FourCc;

verus! {

/// An APPn marker.
pub open spec fn is_app_marker(marker: u8) -> bool {
    0xE0 <= marker <= 0xEF
}

/// The big-endian 16-bit length at `p`.
pub open spec fn be_len(data: Seq<u8>, p: int) -> int {
    data[p] as int * 256 + data[p + 1] as int
}

/// The segments from `pos` on with APPn segments dropped: `None` where the
/// stream is not a well-formed run of marker segments, which leaves the
/// whole stream as it was.  Fewer than four bytes left end the run; an
/// end-of-image or start-of-scan marker keeps everything from itself on.
pub open spec fn strip_from(data: Seq<u8>, pos: int) -> Option<Seq<u8>>
    decreases data.len() - pos,
{
    if pos < 0 || pos + 3 >= data.len() {
        Some(Seq::empty())
    } else if data[pos] != 0xFF {
        None
    } else {
        let marker = data[pos + 1];
        let p = pos + 2;
        if marker == 0xD9 || marker == 0xDA {
            Some(data.subrange(pos, data.len() as int))
        } else {
            let len = be_len(data, p);
            if len < 2 || p + len > data.len() {
                None
            } else {
                match strip_from(data, p + len) {
                    None => None,
                    Some(rest) => if is_app_marker(marker) {
                        Some(rest)
                    } else {
                        Some(data.subrange(pos, p + len) + rest)
                    },
                }
            }
        }
    }
}

/// The stream with its APPn segments dropped, or `None` where it is left
/// as it was: it does not start with a start-of-image marker, or is not a
/// well-formed run of segments up to the scan.
pub open spec fn stripped(data: Seq<u8>) -> Option<Seq<u8>> {
    if data.len() < 4 || data[0] != 0xFF || data[1] != 0xD8 {
        None
    } else {
        match strip_from(data, 2) {
            None => None,
            Some(rest) => Some(data.subrange(0, 2) + rest),
        }
    }
}

fn push_range(out: &mut Vec<u8>, data: &[u8], start: usize, end: usize)
    requires
        start <= end <= data@.len(),
    ensures
        final(out)@ == old(out)@ + data@.subrange(start as int, end as int),
{
    let mut i = start;
    while i < end
        invariant
            start <= i <= end,
            end <= data@.len(),
            out@ == old(out)@ + data@.subrange(start as int, i as int),
        decreases end - i,
    {
        out.push(data[i]);
        proof {
            assert(data@.subrange(start as int, i + 1) =~= data@.subrange(start as int, i as int).push(data@[i as int]));
        }
        i = i + 1;
    }
}

/// Drop the APPn segments of a JPEG stream: the start-of-image marker is
/// kept, then each marker segment that is not APPn, then everything from
/// the first end-of-image or start-of-scan marker on.  `None` means the
/// stream is to be used as it is: it does not start with a start-of-image
/// marker, or a segment is malformed (no marker byte, a length under two
/// or running past the end).
pub fn strip_app_segments(data: &[u8]) -> (r: Option<Vec<u8>>)
    ensures
        match r {
            None => stripped(data@) is None,
            Some(out) => stripped(data@) == Some(out@),
        },
{
    let n = data.len();
    if n < 4 || data[0] != 0xFF || data[1] != 0xD8 {
        return None;
    }
    let mut out: Vec<u8> = Vec::new();
    push_range(&mut out, data, 0, 2);
    let mut pos: usize = 2;
    let ghost head = data@.subrange(0, 2);
    while n - pos > 3
        invariant
            n == data@.len(),
            2 <= pos <= n,
            n >= 4,
            data@[0] == 0xFF && data@[1] == 0xD8,
            head == data@.subrange(0, 2),
            stripped(data@) == (match strip_from(data@, pos as int) {
                None => None,
                Some(rest) => Some(out@ + rest),
            }),
        decreases n - pos,
    {
        if data[pos] != 0xFF {
            return None;
        }
        let marker = data[pos + 1];
        let p = pos + 2;
        if marker == 0xD9 || marker == 0xDA {
            push_range(&mut out, data, pos, n);
            return Some(out);
        }
        let len = (data[p] as usize) * 256 + (data[p + 1] as usize);
        if len < 2 || len > n - p {
            return None;
        }
        let seg_end = p + len;
        proof {
            lemma_strip_step(data@, pos as int, out@);
        }
        if !(0xE0 <= marker && marker <= 0xEF) {
            push_range(&mut out, data, pos, seg_end);
        }
        pos = seg_end;
    }
    proof {
        assert(out@ + Seq::<u8>::empty() =~= out@);
    }
    Some(out)
}

proof fn lemma_strip_step(data: Seq<u8>, pos: int, out: Seq<u8>)
    requires
        0 <= pos,
        pos + 3 < data.len(),
        data[pos] == 0xFF,
        !(data[pos + 1] == 0xD9 || data[pos + 1] == 0xDA),
        be_len(data, pos + 2) >= 2,
        pos + 2 + be_len(data, pos + 2) <= data.len(),
    ensures
        ({
            let next = pos + 2 + be_len(data, pos + 2);
            let kept = if is_app_marker(data[pos + 1]) {
                out
            } else {
                out + data.subrange(pos, next)
            };
            (match strip_from(data, pos) {
                None => None::<Seq<u8>>,
                Some(rest) => Some(out + rest),
            }) == (match strip_from(data, next) {
                None => None::<Seq<u8>>,
                Some(rest) => Some(kept + rest),
            })
        }),
{
    let next = pos + 2 + be_len(data, pos + 2);
    match strip_from(data, next) {
        None => {},
        Some(rest) => {
            if !is_app_marker(data[pos + 1]) {
                assert(out + (data.subrange(pos, next) + rest) =~= out + data.subrange(pos, next) + rest);
            }
        },
    }
}

/// The pixel layout a JPEG encoder reads.
#[derive(Debug, Clone, Copy, PartialEq, Eq, Structural)]
pub enum JpegPixels {
    Gray,
    Rgb,
    Rgba,
}

/// The chroma subsampling a JPEG encoder writes.
#[derive(Debug, Clone, Copy, PartialEq, Eq, Structural)]
pub enum JpegSubsampling {
    /// Grey only.
    Gray,
    /// 4:2:0: chroma halved both ways.
    Sub2x2,
}

/// What a JPEG encoder reads of a frame: the layout and subsampling, the
/// row pitch, and the bytes of the rows.
#[derive(Debug, Clone, Copy, PartialEq, Eq, Structural)]
pub struct JpegInput {
    pub pixels: JpegPixels,
    pub subsampling: JpegSubsampling,
    pub pitch: usize,
    pub len: usize,
}

/// Why a frame cannot be handed to a JPEG encoder.
#[derive(Debug, Clone, Copy, PartialEq, Eq, Structural)]
pub enum JpegInputError {
    /// Codes other than grey, RGB24 and RGBA.
    Unsupported(FourCc),
    /// The rows' bytes overflow.
    StrideOverflow,
    /// The plane is shorter than its rows.
    ShortFrame,
}

/// The layout, subsampling and bytes per pixel a JPEG encoder reads a code
/// as: grey for `R8  ` and `GREY`, RGB or RGBA at 4:2:0 for `RG24` and `RGBA`.
pub open spec fn jpeg_layout(code: FourCc) -> Option<(JpegPixels, JpegSubsampling, int)> {
    if code == FourCc::R8 || code == FourCc::GREY {
        Some((JpegPixels::Gray, JpegSubsampling::Gray, 1))
    } else if code == FourCc::RG24 {
        Some((JpegPixels::Rgb, JpegSubsampling::Sub2x2, 3))
    } else if code == FourCc::RGBA {
        Some((JpegPixels::Rgba, JpegSubsampling::Sub2x2, 4))
    } else {
        None
    }
}

/// The input a JPEG encoder reads from a `width` by `height` frame of
/// `code` whose plane has `plane_len` bytes, rows `stride` apart: rows at
/// least a row of pixels apart, all of them inside the plane.
pub open spec fn jpeg_input_of(code: FourCc, width: int, height: int, stride: int, plane_len: int) -> Result<
    JpegInput,
    JpegInputError,
> {
    match jpeg_layout(code) {
        None => Err(JpegInputError::Unsupported(code)),
        Some((pixels, subsampling, bpp)) => {
            let pitch = if stride >= width * bpp {
                stride
            } else {
                width * bpp
            };
            if pitch * height > usize::MAX {
                Err(JpegInputError::StrideOverflow)
            } else if plane_len < pitch * height {
                Err(JpegInputError::ShortFrame)
            } else {
                Ok(JpegInput { pixels, subsampling, pitch: pitch as usize, len: (pitch * height) as usize })
            }
        },
    }
}

/// The input a JPEG encoder reads from a frame's plane.
pub fn jpeg_input(code: FourCc, width: u32, height: u32, stride: usize, plane_len: usize) -> (r: Result<
    JpegInput,
    JpegInputError,
>)
    requires
        4 * (width as int) <= usize::MAX,
    ensures
        r == jpeg_input_of(code, width as int, height as int, stride as int, plane_len as int),
{
    let (pixels, subsampling, bpp) = if code == FourCc::R8 || code == FourCc::GREY {
        (JpegPixels::Gray, JpegSubsampling::Gray, 1usize)
    } else if code == FourCc::RG24 {
        (JpegPixels::Rgb, JpegSubsampling::Sub2x2, 3usize)
    } else if code == FourCc::RGBA {
        (JpegPixels::Rgba, JpegSubsampling::Sub2x2, 4usize)
    } else {
        return Err(JpegInputError::Unsupported(code));
    };
    let row = width as usize * bpp;
    let pitch = if stride >= row {
        stride
    } else {
        row
    };
    let len = match pitch.checked_mul(height as usize) {
        Some(n) => n,
        None => return Err(JpegInputError::StrideOverflow),
    };
    if plane_len < len {
        return Err(JpegInputError::ShortFrame);
    }
    Ok(JpegInput { pixels, subsampling, pitch, len })
}

} // verus!
