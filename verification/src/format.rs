//! Pixel and stream formats: FourCC codes, resolutions, frame intervals and
//! the storage layout each known code implies.
use vstd::prelude::*;

verus! {

/// The little-endian value of four bytes read as a `u32`.
pub open spec fn le_u32(b: Seq<u8>) -> int {
    b[0] + 256 * b[1] + 65536 * b[2] + 16777216 * b[3]
}

/// The four bytes of a code's value, least significant first.
pub open spec fn fourcc_bytes(v: u32) -> Seq<u8> {
    seq![(v % 256) as u8, ((v / 256) % 256) as u8, ((v / 65536) % 256) as u8, (v / 16777216) as u8]
}

/// A UTF-8 continuation byte, 0x80 to 0xBF.
pub open spec fn utf8_cont(b: u8) -> bool {
    0x80 <= b <= 0xBF
}

/// Length of the well-formed UTF-8 sequence `s` starts with, after the
/// Unicode standard's table of well-formed byte sequences (no overlong
/// forms, no surrogates, nothing past U+10FFFF); 0 where it starts with
/// none.
pub open spec fn utf8_seq_len(s: Seq<u8>) -> int {
    let n = s.len();
    if n == 0 {
        0
    } else if s[0] <= 0x7F {
        1
    } else if 0xC2 <= s[0] <= 0xDF {
        if n >= 2 && utf8_cont(s[1]) {
            2
        } else {
            0
        }
    } else if 0xE0 <= s[0] <= 0xEF {
        let lo: u8 = if s[0] == 0xE0 { 0xA0 } else { 0x80 };
        let hi: u8 = if s[0] == 0xED { 0x9F } else { 0xBF };
        if n >= 3 && lo <= s[1] <= hi && utf8_cont(s[2]) {
            3
        } else {
            0
        }
    } else if 0xF0 <= s[0] <= 0xF4 {
        let lo: u8 = if s[0] == 0xF0 { 0x90 } else { 0x80 };
        let hi: u8 = if s[0] == 0xF4 { 0x8F } else { 0xBF };
        if n >= 4 && lo <= s[1] <= hi && utf8_cont(s[2]) && utf8_cont(s[3]) {
            4
        } else {
            0
        }
    } else {
        0
    }
}

/// The character the well-formed `k`-byte sequence at the start of `s`
/// encodes.
pub open spec fn utf8_char(s: Seq<u8>, k: int) -> char {
    let v: int = if k == 1 {
        s[0] as int
    } else if k == 2 {
        (s[0] - 0xC0) * 64 + (s[1] - 0x80)
    } else if k == 3 {
        (s[0] - 0xE0) * 4096 + (s[1] - 0x80) * 64 + (s[2] - 0x80)
    } else {
        (s[0] - 0xF0) * 262144 + (s[1] - 0x80) * 4096 + (s[2] - 0x80) * 64 + (s[3] - 0x80)
    };
    v as char
}

/// Whether `s` is valid UTF-8: a run of well-formed sequences.
pub open spec fn utf8_valid(s: Seq<u8>) -> bool
    decreases s.len(),
{
    if s.len() == 0 {
        true
    } else if utf8_seq_len(s) == 0 {
        false
    } else {
        utf8_valid(s.skip(utf8_seq_len(s)))
    }
}

/// The characters valid UTF-8 bytes encode, in order.
pub open spec fn utf8_decode(s: Seq<u8>) -> Seq<char>
    decreases s.len(),
{
    if s.len() == 0 || utf8_seq_len(s) == 0 {
        Seq::empty()
    } else {
        seq![utf8_char(s, utf8_seq_len(s))] + utf8_decode(s.skip(utf8_seq_len(s)))
    }
}

/// Bytes below 0x80 are valid UTF-8, each the character of its code.
proof fn lemma_ascii_utf8(s: Seq<u8>)
    requires
        forall|i: int| 0 <= i < s.len() ==> #[trigger] s[i] < 0x80,
    ensures
        utf8_valid(s),
        utf8_decode(s) == Seq::new(s.len(), |i: int| s[i] as char),
    decreases s.len(),
{
    if s.len() > 0 {
        let t = s.skip(1);
        assert forall|i: int| 0 <= i < t.len() implies #[trigger] t[i] < 0x80 by {
            assert(t[i] == s[i + 1]);
        }
        lemma_ascii_utf8(t);
        assert(utf8_decode(s) =~= Seq::new(s.len(), |i: int| s[i] as char));
    }
}

proof fn lemma_le_u32_bytes(b: Seq<u8>, v: u32)
    requires
        b.len() == 4,
        le_u32(b) == v,
    ensures
        b == fourcc_bytes(v),
{
    assert(b[0] == v % 256 && b[1] == (v / 256) % 256 && b[2] == (v / 65536) % 256 && b[3] == v / 16777216)
        by (nonlinear_arith)
        requires
            b[0] + 256 * b[1] + 65536 * b[2] + 16777216 * b[3] == v,
            0 <= b[0] < 256,
            0 <= b[1] < 256,
            0 <= b[2] < 256,
            0 <= b[3] < 256,
    ;
    assert(b =~= fourcc_bytes(v));
}

/// Calls `String::from_utf8` on a copy of `bytes`: the text they spell
/// when they are valid UTF-8, nothing otherwise.  Claimed, from the
/// standard library's documentation: the conversion succeeds exactly on
/// valid UTF-8, and the string holds the characters the bytes encode.
#[verifier::external_body]
fn utf8_string(bytes: &[u8]) -> (r: Option<String>)
    ensures
        r is Some == utf8_valid(bytes@),
        r is Some ==> r->Some_0@ == utf8_decode(bytes@),
{
    String::from_utf8(bytes.to_vec()).ok()
}

/// The byte of the ASCII hex digit for `d` below 16, lowercase.
pub open spec fn hex_byte(d: int) -> u8 {
    if d < 10 {
        (0x30 + d) as u8
    } else {
        (0x57 + d) as u8
    }
}

/// Nibble `j` of `v`, counted from the most significant.
pub open spec fn nibble(v: u32, j: int) -> u32 {
    (v >> ((28 - 4 * j) as u32)) & 0xF
}

proof fn lemma_nibble_small(v: u32, sh: u32)
    ensures
        (v >> sh) & 0xF < 16,
{
    assert((v >> sh) & 0xF < 16) by (bit_vector);
}

/// `0x` and the eight lowercase hex digits of `v`, as bytes.
pub open spec fn hex_bytes(v: u32) -> Seq<u8> {
    Seq::new(10, |i: int| if i == 0 { 0x30u8 } else if i == 1 { 0x78u8 } else { hex_byte(nibble(v, i - 2) as int) })
}

/// How a code is shown: its text where its bytes are valid UTF-8, else
/// `0x` and its value in eight lowercase hex digits.
pub open spec fn fourcc_display(v: u32) -> Seq<char> {
    if utf8_valid(fourcc_bytes(v)) {
        utf8_decode(fourcc_bytes(v))
    } else {
        Seq::new(10, |i: int| hex_bytes(v)[i] as char)
    }
}

/// Four-character code describing a pixel/stream format.
///
/// The codes this library knows by name are variants of their own; any other
/// code is `Other` with its little-endian `u32` value, which is never the
/// value of a named variant (see `well_formed`).
#[allow(non_camel_case_types)]
#[derive(Debug, Clone, Copy, PartialEq, Eq, Hash, Structural)]
pub enum FourCc {
    /// `R8  `
    R8,
    /// `GREY`
    GREY,
    /// `RG24`
    RG24,
    /// `RGB3`
    RGB3,
    /// `BGR3`
    BGR3,
    /// `BG24`
    BG24,
    /// `RGBA`
    RGBA,
    /// `BGRA`
    BGRA,
    /// `NV12`
    NV12,
    /// `NV21`
    NV21,
    /// `YUYV`
    YUYV,
    /// `UYVY`
    UYVY,
    /// `YVYU`
    YVYU,
    /// `VYUY`
    VYUY,
    /// `I420`
    I420,
    /// `YU12`
    YU12,
    /// `YV12`
    YV12,
    /// `D32F`
    D32F,
    /// `R16 `
    R16,
    /// `XR24`
    XR24,
    /// `XB24`
    XB24,
    /// `RG48`
    RG48,
    /// `BG48`
    BG48,
    /// `MJPG`
    MJPG,
    /// `JPEG`
    JPEG,
    /// `H264`
    H264,
    /// `H265`
    H265,
    /// `HEVC`
    HEVC,
    /// Any other code, by its little-endian `u32` value.
    Other(u32),
}

/// Code of `RGB6`.
pub const CODE_RGB6: u32 = 0x36424752;
/// Code of `NV16`.
pub const CODE_NV16: u32 = 0x3631564e;
/// Code of `NV61`.
pub const CODE_NV61: u32 = 0x3136564e;
/// Code of `NV24`.
pub const CODE_NV24: u32 = 0x3432564e;
/// Code of `NV42`.
pub const CODE_NV42: u32 = 0x3234564e;
/// Code of `YU16`.
pub const CODE_YU16: u32 = 0x36315559;
/// Code of `YV16`.
pub const CODE_YV16: u32 = 0x36315659;
/// Code of `YU24`.
pub const CODE_YU24: u32 = 0x34325559;
/// Code of `YV24`.
pub const CODE_YV24: u32 = 0x34325659;

/// Whether `c` is the value of a named code.
pub open spec fn is_named_code(c: u32) -> bool {
    c == 0x20203852 || c == 0x59455247 || c == 0x34324752 || c == 0x33424752 || c == 0x33524742 || c == 0x34324742 || c == 0x41424752 || c == 0x41524742 || c == 0x3231564e || c == 0x3132564e || c == 0x56595559 || c == 0x59565955 || c == 0x55595659 || c == 0x59555956 || c == 0x30323449 || c == 0x32315559 || c == 0x32315659 || c == 0x46323344 || c == 0x20363152 || c == 0x34325258 || c == 0x34324258 || c == 0x38344752 || c == 0x38344742 || c == 0x47504a4d || c == 0x4745504a || c == 0x34363248 || c == 0x35363248 || c == 0x43564548
}

impl View for FourCc {
    type V = u32;

    open spec fn view(&self) -> u32 {
        match *self {
            FourCc::R8 => 0x20203852,
            FourCc::GREY => 0x59455247,
            FourCc::RG24 => 0x34324752,
            FourCc::RGB3 => 0x33424752,
            FourCc::BGR3 => 0x33524742,
            FourCc::BG24 => 0x34324742,
            FourCc::RGBA => 0x41424752,
            FourCc::BGRA => 0x41524742,
            FourCc::NV12 => 0x3231564e,
            FourCc::NV21 => 0x3132564e,
            FourCc::YUYV => 0x56595559,
            FourCc::UYVY => 0x59565955,
            FourCc::YVYU => 0x55595659,
            FourCc::VYUY => 0x59555956,
            FourCc::I420 => 0x30323449,
            FourCc::YU12 => 0x32315559,
            FourCc::YV12 => 0x32315659,
            FourCc::D32F => 0x46323344,
            FourCc::R16 => 0x20363152,
            FourCc::XR24 => 0x34325258,
            FourCc::XB24 => 0x34324258,
            FourCc::RG48 => 0x38344752,
            FourCc::BG48 => 0x38344742,
            FourCc::MJPG => 0x47504a4d,
            FourCc::JPEG => 0x4745504a,
            FourCc::H264 => 0x34363248,
            FourCc::H265 => 0x35363248,
            FourCc::HEVC => 0x43564548,
            FourCc::Other(c) => c,
        }
    }
}

impl FourCc {
    /// A code is well formed when `Other` never carries the value of a named code.
    pub open spec fn well_formed(self) -> bool {
        self matches FourCc::Other(c) ==> !is_named_code(c)
    }

    /// Construct from raw bytes.
    pub fn new(bytes: [u8; 4]) -> (r: Self)
        ensures
            r@ == le_u32(bytes@),
            r.well_formed(),
    {
        let code: u32 = bytes[0] as u32 + bytes[1] as u32 * 256 + bytes[2] as u32 * 65536
            + bytes[3] as u32 * 16777216;
        Self::from_u32(code)
    }

    /// Construct from the little-endian `u32` encoding.
    pub fn from_u32(value: u32) -> (r: Self)
        ensures
            r@ == value,
            r.well_formed(),
    {
        match value {
        0x20203852 => FourCc::R8,
        0x59455247 => FourCc::GREY,
        0x34324752 => FourCc::RG24,
        0x33424752 => FourCc::RGB3,
        0x33524742 => FourCc::BGR3,
        0x34324742 => FourCc::BG24,
        0x41424752 => FourCc::RGBA,
        0x41524742 => FourCc::BGRA,
        0x3231564e => FourCc::NV12,
        0x3132564e => FourCc::NV21,
        0x56595559 => FourCc::YUYV,
        0x59565955 => FourCc::UYVY,
        0x55595659 => FourCc::YVYU,
        0x59555956 => FourCc::VYUY,
        0x30323449 => FourCc::I420,
        0x32315559 => FourCc::YU12,
        0x32315659 => FourCc::YV12,
        0x46323344 => FourCc::D32F,
        0x20363152 => FourCc::R16,
        0x34325258 => FourCc::XR24,
        0x34324258 => FourCc::XB24,
        0x38344752 => FourCc::RG48,
        0x38344742 => FourCc::BG48,
        0x47504a4d => FourCc::MJPG,
        0x4745504a => FourCc::JPEG,
        0x34363248 => FourCc::H264,
        0x35363248 => FourCc::H265,
        0x43564548 => FourCc::HEVC,
        _ => FourCc::Other(value),
        }
    }

    /// Little-endian u32 encoding.
    pub fn to_u32(self) -> (r: u32)
        ensures
            r == self@,
    {
        match self {
            FourCc::R8 => 0x20203852,
            FourCc::GREY => 0x59455247,
            FourCc::RG24 => 0x34324752,
            FourCc::RGB3 => 0x33424752,
            FourCc::BGR3 => 0x33524742,
            FourCc::BG24 => 0x34324742,
            FourCc::RGBA => 0x41424752,
            FourCc::BGRA => 0x41524742,
            FourCc::NV12 => 0x3231564e,
            FourCc::NV21 => 0x3132564e,
            FourCc::YUYV => 0x56595559,
            FourCc::UYVY => 0x59565955,
            FourCc::YVYU => 0x55595659,
            FourCc::VYUY => 0x59555956,
            FourCc::I420 => 0x30323449,
            FourCc::YU12 => 0x32315559,
            FourCc::YV12 => 0x32315659,
            FourCc::D32F => 0x46323344,
            FourCc::R16 => 0x20363152,
            FourCc::XR24 => 0x34325258,
            FourCc::XB24 => 0x34324258,
            FourCc::RG48 => 0x38344752,
            FourCc::BG48 => 0x38344742,
            FourCc::MJPG => 0x47504a4d,
            FourCc::JPEG => 0x4745504a,
            FourCc::H264 => 0x34363248,
            FourCc::H265 => 0x35363248,
            FourCc::HEVC => 0x43564548,
            FourCc::Other(c) => c,
        }
    }

    /// The four bytes of the code, in order.
    pub fn to_bytes(self) -> (r: [u8; 4])
        ensures
            r@.len() == 4,
            le_u32(r@) == self@,
    {
        let c = self.to_u32();
        let b0 = (c % 256) as u8;
        let b1 = ((c / 256) % 256) as u8;
        let b2 = ((c / 65536) % 256) as u8;
        let b3 = (c / 16777216) as u8;
        [b0, b1, b2, b3]
    }

    /// The code as text, when its four bytes are valid UTF-8.
    pub fn as_str(&self) -> (r: Option<String>)
        ensures
            r is Some == utf8_valid(fourcc_bytes(self@)),
            r is Some ==> r->Some_0@ == utf8_decode(fourcc_bytes(self@)),
    {
        let bytes = self.to_bytes();
        proof {
            lemma_le_u32_bytes(bytes@, self@);
        }
        utf8_string(&bytes)
    }

    /// The code as shown: its text where its bytes are valid UTF-8, else
    /// `0x` and its value in eight lowercase hex digits.
    pub fn to_string(&self) -> (r: String)
        ensures
            r@ == fourcc_display(self@),
    {
        if let Some(text) = self.as_str() {
            return text;
        }
        let v = self.to_u32();
        let mut out: Vec<u8> = Vec::new();
        out.push(0x30);
        out.push(0x78);
        let mut j: u32 = 0;
        while j < 8
            invariant
                j <= 8,
                v == self@,
                out@.len() == 2 + j,
                forall|i: int| 0 <= i < out@.len() ==> #[trigger] out@[i] == hex_bytes(v)[i],
            decreases 8 - j,
        {
            let sh: u32 = 28 - 4 * j;
            let d: u32 = (v >> sh) & 0xF;
            proof {
                lemma_nibble_small(v, sh);
                assert(d == nibble(v, j as int));
            }
            let b: u8 = if d < 10 {
                0x30 + d as u8
            } else {
                0x57 + d as u8
            };
            out.push(b);
            j = j + 1;
        }
        assert(out@ =~= hex_bytes(v));
        proof {
            assert forall|i: int| 0 <= i < out@.len() implies #[trigger] out@[i] < 0x80 by {
                lemma_nibble_small(v, (28 - 4 * (i - 2)) as u32);
            }
            lemma_ascii_utf8(out@);
        }
        match utf8_string(out.as_slice()) {
            Some(text) => text,
            None => String::new(),
        }
    }

    /// Whether this format is stored as a compressed packet rather than raw image planes.
    pub fn is_compressed(self) -> (r: bool)
        ensures
            r == is_compressed_code(self),
    {
        self.info().compressed
    }

    /// Whether this FourCC names a JPEG-encoded stream or packet.
    pub fn is_jpeg_encoded(self) -> (r: bool)
        ensures
            r == is_jpeg_code(self),
    {
        self.info().jpeg_encoded
    }

    /// Bytes per pixel for common single-plane packed raw formats.
    pub fn packed_bytes_per_pixel(self) -> (r: Option<usize>)
        ensures
            r == packed_bpp_of(self),
    {
        self.info().packed_bytes_per_pixel
    }

    /// Estimated byte size for common raw frame formats.
    pub fn estimated_frame_bytes(self, width: usize, height: usize) -> (r: Option<usize>)
        ensures
            r == estimated_bytes_spec(self, packed_bpp_of(self), width as int, height as int),
    {
        self.info().estimated_frame_bytes(width, height)
    }

    /// Shared metadata for this FourCC.
    pub fn info(self) -> (r: FormatInfo)
        ensures
            r == info_of(self),
    {
        let compressed = self == FourCc::MJPG || self == FourCc::JPEG || self == FourCc::H264
            || self == FourCc::H265 || self == FourCc::HEVC;
        let jpeg_encoded = self == FourCc::MJPG || self == FourCc::JPEG;
        let packed_bytes_per_pixel = if self == FourCc::R8 || self == FourCc::GREY {
            Some(1usize)
        } else if self == FourCc::RG24 || self == FourCc::RGB3 || self == FourCc::BGR3 || self
            == FourCc::BG24 {
            Some(3usize)
        } else if self == FourCc::RGBA || self == FourCc::BGRA {
            Some(4usize)
        } else {
            None
        };
        let default_color_space = if self == FourCc::MJPG || self == FourCc::JPEG || self
            == FourCc::RG24 || self == FourCc::RGB3 || self == FourCc::BGR3 || self
            == FourCc::BG24 || self == FourCc::RGBA || self == FourCc::BGRA || self
            == FourCc::XB24 || self == FourCc::XR24 || self == FourCc::Other(CODE_RGB6) {
            Some(ColorSpace::Srgb)
        } else if self == FourCc::NV12 || self == FourCc::NV21 || self == FourCc::YUYV || self
            == FourCc::YVYU || self == FourCc::UYVY || self == FourCc::VYUY || self
            == FourCc::I420 || self == FourCc::YU12 || self == FourCc::YV12 || self
            == FourCc::Other(CODE_NV16) || self == FourCc::Other(CODE_NV61) || self == FourCc::Other(CODE_NV24) || self
            == FourCc::Other(CODE_NV42) || self == FourCc::Other(CODE_YU16) || self == FourCc::Other(CODE_YV16) || self
            == FourCc::Other(CODE_YU24) || self == FourCc::Other(CODE_YV24) {
            Some(ColorSpace::Bt709)
        } else {
            None
        };
        FormatInfo {
            fourcc: self,
            compressed,
            jpeg_encoded,
            packed_bytes_per_pixel,
            default_color_space,
        }
    }
}

/// Codes stored as compressed packets.
pub open spec fn is_compressed_code(c: FourCc) -> bool {
    c == FourCc::MJPG || c == FourCc::JPEG || c == FourCc::H264 || c == FourCc::H265 || c
        == FourCc::HEVC
}

/// Codes that name JPEG-encoded data.
pub open spec fn is_jpeg_code(c: FourCc) -> bool {
    c == FourCc::MJPG || c == FourCc::JPEG
}

/// Bytes per pixel of the single-plane packed codes.
pub open spec fn packed_bpp_of(c: FourCc) -> Option<usize> {
    if c == FourCc::R8 || c == FourCc::GREY {
        Some(1)
    } else if c == FourCc::RG24 || c == FourCc::RGB3 || c == FourCc::BGR3 || c == FourCc::BG24 {
        Some(3)
    } else if c == FourCc::RGBA || c == FourCc::BGRA {
        Some(4)
    } else {
        None
    }
}

/// Default color space each known code implies.
pub open spec fn default_color_of(c: FourCc) -> Option<ColorSpace> {
    if c == FourCc::MJPG || c == FourCc::JPEG || c == FourCc::RG24 || c == FourCc::RGB3 || c
        == FourCc::BGR3 || c == FourCc::BG24 || c == FourCc::RGBA || c == FourCc::BGRA || c
        == FourCc::XB24 || c == FourCc::XR24 || c == FourCc::Other(CODE_RGB6) {
        Some(ColorSpace::Srgb)
    } else if c == FourCc::NV12 || c == FourCc::NV21 || c == FourCc::YUYV || c == FourCc::YVYU
        || c == FourCc::UYVY || c == FourCc::VYUY || c == FourCc::I420 || c == FourCc::YU12 || c
        == FourCc::YV12 || c == FourCc::Other(CODE_NV16) || c == FourCc::Other(CODE_NV61) || c == FourCc::Other(CODE_NV24) || c
        == FourCc::Other(CODE_NV42) || c == FourCc::Other(CODE_YU16) || c == FourCc::Other(CODE_YV16) || c == FourCc::Other(CODE_YU24) || c
        == FourCc::Other(CODE_YV24) {
        Some(ColorSpace::Bt709)
    } else {
        None
    }
}

/// The metadata record of a code.
pub open spec fn info_of(c: FourCc) -> FormatInfo {
    FormatInfo {
        fourcc: c,
        compressed: is_compressed_code(c),
        jpeg_encoded: is_jpeg_code(c),
        packed_bytes_per_pixel: packed_bpp_of(c),
        default_color_space: default_color_of(c),
    }
}

/// `n` as a `usize` when it fits.
pub open spec fn fit_usize(n: int) -> Option<usize> {
    if 0 <= n <= usize::MAX {
        Some(n as usize)
    } else {
        None
    }
}

/// Frame size in bytes of `width * height` pixels of the given code: `None`
/// when the code has no single-frame estimate or a product overflows `usize`.
pub open spec fn estimated_bytes_spec(c: FourCc, bpp: Option<usize>, width: int, height: int) -> Option<usize> {
    let pixels = width * height;
    if pixels > usize::MAX {
        None
    } else if c == FourCc::R16 || c == FourCc::YUYV || c == FourCc::UYVY || c == FourCc::YVYU
        || c == FourCc::VYUY {
        fit_usize(pixels * 2)
    } else if c == FourCc::NV12 || c == FourCc::NV21 || c == FourCc::I420 || c == FourCc::YU12
        || c == FourCc::YV12 {
        if pixels * 3 > usize::MAX {
            None
        } else {
            Some(((pixels * 3 + 1) / 2) as usize)
        }
    } else if c == FourCc::XR24 || c == FourCc::XB24 || c == FourCc::D32F {
        fit_usize(pixels * 4)
    } else if c == FourCc::RG48 || c == FourCc::BG48 {
        fit_usize(pixels * 6)
    } else {
        match bpp {
            Some(b) => fit_usize(pixels * b),
            None => None,
        }
    }
}

/// Shared metadata for a known FourCC format.
#[derive(Debug, Clone, Copy, PartialEq, Eq, Structural)]
pub struct FormatInfo {
    pub fourcc: FourCc,
    pub compressed: bool,
    pub jpeg_encoded: bool,
    pub packed_bytes_per_pixel: Option<usize>,
    pub default_color_space: Option<ColorSpace>,
}

/// `ceil(n / 2)`.
pub fn div_ceil2(n: usize) -> (r: usize)
    ensures
        r == (n + 1) / 2,
{
    n / 2 + n % 2
}

fn checked_mul_usize(a: usize, b: usize) -> (r: Option<usize>)
    ensures
        r == fit_usize(a * b),
{
    a.checked_mul(b)
}

impl FormatInfo {
    /// Estimate the byte size for a common single-frame representation.
    pub fn estimated_frame_bytes(self, width: usize, height: usize) -> (r: Option<usize>)
        ensures
            r == estimated_bytes_spec(self.fourcc, self.packed_bytes_per_pixel, width as int, height as int),
    {
        let pixels = match checked_mul_usize(width, height) {
            Some(p) => p,
            None => return None,
        };
        let c = self.fourcc;
        if c == FourCc::R16 || c == FourCc::YUYV || c == FourCc::UYVY || c == FourCc::YVYU || c
            == FourCc::VYUY {
            checked_mul_usize(pixels, 2)
        } else if c == FourCc::NV12 || c == FourCc::NV21 || c == FourCc::I420 || c == FourCc::YU12
            || c == FourCc::YV12 {
            match checked_mul_usize(pixels, 3) {
                Some(bytes) => Some(div_ceil2(bytes)),
                None => None,
            }
        } else if c == FourCc::XR24 || c == FourCc::XB24 || c == FourCc::D32F {
            checked_mul_usize(pixels, 4)
        } else if c == FourCc::RG48 || c == FourCc::BG48 {
            checked_mul_usize(pixels, 6)
        } else {
            match self.packed_bytes_per_pixel {
                Some(bpp) => checked_mul_usize(pixels, bpp),
                None => None,
            }
        }
    }
}

/// Basic color space hints.
#[derive(Debug, Clone, Copy, PartialEq, Eq, Structural)]
pub enum ColorSpace {
    /// Standard sRGB.
    Srgb,
    /// Rec. 709.
    Bt709,
    /// Rec. 2020.
    Bt2020,
    /// Unspecified/unknown.
    Unknown,
}


/// A `u32` that is never zero.
#[derive(Debug, Clone, Copy, PartialEq, Eq, Hash, Structural)]
pub struct NonZeroU32 {
    value: u32,
}

impl View for NonZeroU32 {
    type V = u32;

    closed spec fn view(&self) -> u32 {
        self.value
    }
}

impl NonZeroU32 {
    #[verifier::type_invariant]
    spec fn nonzero(self) -> bool {
        self.value != 0
    }

    /// `Some` exactly when `value` is not zero.
    pub fn new(value: u32) -> (r: Option<Self>)
        ensures
            value == 0 <==> r is None,
            r matches Some(n) ==> n@ == value,
    {
        if value == 0 {
            None
        } else {
            Some(NonZeroU32 { value })
        }
    }

    /// The value, which is never zero.
    pub fn get(&self) -> (r: u32)
        ensures
            r == self@,
            r > 0,
    {
        proof {
            use_type_invariant(self);
        }
        self.value
    }
}

/// Resolution of a frame.
#[derive(Debug, Clone, Copy, PartialEq, Eq, Structural)]
pub struct Resolution {
    /// Width in pixels (non-zero).
    pub width: NonZeroU32,
    /// Height in pixels (non-zero).
    pub height: NonZeroU32,
}

impl Resolution {
    /// Create a resolution, returning `None` if width or height are zero.
    pub fn new(width: u32, height: u32) -> (r: Option<Self>)
        ensures
            r is None <==> (width == 0 || height == 0),
            r matches Some(res) ==> res.width@ == width && res.height@ == height,
    {
        let w = match NonZeroU32::new(width) {
            Some(w) => w,
            None => return None,
        };
        let h = match NonZeroU32::new(height) {
            Some(h) => h,
            None => return None,
        };
        Some(Resolution { width: w, height: h })
    }
}

/// Frame interval expressed as a rational number of seconds per frame.
#[derive(Debug, Clone, Copy, PartialEq, Eq, Structural)]
pub struct Interval {
    /// Numerator of the seconds-per-frame rational.
    pub numerator: NonZeroU32,
    /// Denominator of the seconds-per-frame rational.
    pub denominator: NonZeroU32,
}

/// `a` lies between `lo` and `hi` when each is read as the rational
/// numerator / denominator.
pub open spec fn interval_within_spec(a: Interval, lo: Interval, hi: Interval) -> bool {
    &&& a.numerator@ * lo.denominator@ >= lo.numerator@ * a.denominator@
    &&& a.numerator@ * hi.denominator@ <= hi.numerator@ * a.denominator@
}

fn mul_u32_wide(a: u32, b: u32) -> (r: u64)
    ensures
        r == a * b,
{
    assert(a * b <= u32::MAX * u32::MAX) by (nonlinear_arith)
        requires
            a <= u32::MAX,
            b <= u32::MAX,
    ;
    a as u64 * b as u64
}

impl Interval {
    /// Create a frame interval from whole frames-per-second: `1 / fps` seconds.
    ///
    /// Returns `None` when `fps` is zero.
    pub fn from_fps(fps: u32) -> (r: Option<Self>)
        ensures
            r is None <==> fps == 0,
            r matches Some(i) ==> i.numerator@ == 1 && i.denominator@ == fps,
    {
        Self::new(1, fps)
    }

    /// Create a frame interval from a rational seconds-per-frame value.
    ///
    /// Returns `None` when either side of the rational is zero.
    pub fn new(numerator: u32, denominator: u32) -> (r: Option<Self>)
        ensures
            r is None <==> (numerator == 0 || denominator == 0),
            r matches Some(i) ==> i.numerator@ == numerator && i.denominator@ == denominator,
    {
        let n = match NonZeroU32::new(numerator) {
            Some(n) => n,
            None => return None,
        };
        let d = match NonZeroU32::new(denominator) {
            Some(d) => d,
            None => return None,
        };
        Some(Interval { numerator: n, denominator: d })
    }

    /// Whether this interval lies between `min` and `max`, compared as rationals.
    pub fn within(&self, min: Interval, max: Interval) -> (r: bool)
        ensures
            r == interval_within_spec(*self, min, max),
    {
        let self_num = self.numerator.get();
        let self_den = self.denominator.get();
        let min_num = min.numerator.get();
        let min_den = min.denominator.get();
        let max_num = max.numerator.get();
        let max_den = max.denominator.get();
        mul_u32_wide(self_num, min_den) >= mul_u32_wide(min_num, self_den) && mul_u32_wide(
            self_num,
            max_den,
        ) <= mul_u32_wide(max_num, self_den)
    }
}

/// Stepwise interval description (min/max/step).
#[derive(Debug, Clone, Copy, PartialEq, Eq, Structural)]
pub struct IntervalStepwise {
    pub min: Interval,
    pub max: Interval,
    pub step: Interval,
}

/// Media format including code and geometry.
#[derive(Debug, Clone, Copy, PartialEq, Eq, Structural)]
pub struct MediaFormat {
    /// FourCc code describing pixel layout.
    pub code: FourCc,
    /// Resolution of the frame.
    pub resolution: Resolution,
    /// Color space hint.
    pub color: ColorSpace,
}

impl MediaFormat {
    /// Build a new format.
    pub fn new(code: FourCc, resolution: Resolution, color: ColorSpace) -> (r: Self)
        ensures
            r == (MediaFormat { code, resolution, color }),
    {
        MediaFormat { code, resolution, color }
    }

    /// Build an sRGB format from dimensions.
    ///
    /// Returns `None` when either dimension is zero.
    pub fn srgb(code: FourCc, width: u32, height: u32) -> (r: Option<Self>)
        ensures
            r is None <==> (width == 0 || height == 0),
            r matches Some(f) ==> f.code == code && f.resolution.width@ == width
                && f.resolution.height@ == height && f.color == ColorSpace::Srgb,
    {
        match Resolution::new(width, height) {
            Some(res) => Some(MediaFormat::new(code, res, ColorSpace::Srgb)),
            None => None,
        }
    }
}


/// How a frame's bytes are stored.
#[derive(Debug, Clone, Copy, PartialEq, Eq, Hash, Structural)]
pub enum FrameStorageKind {
    /// One plane of interleaved pixels.
    Packed,
    /// One plane of raw sensor samples.
    RawBayer,
    /// A luma plane followed by one interleaved chroma plane.
    SemiPlanar,
    /// One plane per component.
    Planar,
    /// A compressed packet.
    Compressed,
    /// Bytes that live on a GPU and have no host layout.
    OpaqueGpu,
    /// A code with no known layout.
    Unknown,
}

/// Chroma subsampling of a planar or semi-planar format.
#[derive(Debug, Clone, Copy, PartialEq, Eq, Hash, Structural)]
pub enum ChromaSubsampling {
    /// Half width, half height chroma.
    Cs420,
    /// Half width, full height chroma.
    Cs422,
    /// Full resolution chroma.
    Cs444,
}

/// Plane count and chroma subsampling of a format.
#[derive(Debug, Clone, Copy, PartialEq, Eq, Structural)]
pub struct PlaneSchema {
    pub planes: usize,
    pub subsampling: Option<ChromaSubsampling>,
}

/// Storage layout a code implies.
#[derive(Debug, Clone, Copy, PartialEq, Eq, Structural)]
pub struct FrameLayoutInfo {
    pub storage: FrameStorageKind,
    pub planes: PlaneSchema,
    /// Bytes per pixel of the first plane of a packed or raw format.
    pub bytes_per_pixel: Option<usize>,
}

/// Visible bytes per row of the first plane of a frame `width` pixels wide.
pub open spec fn first_plane_row_bytes_spec(info: FrameLayoutInfo, width: int) -> Option<usize> {
    match info.storage {
        FrameStorageKind::Packed | FrameStorageKind::RawBayer => match info.bytes_per_pixel {
            Some(b) => fit_usize(width * b),
            None => None,
        },
        FrameStorageKind::SemiPlanar | FrameStorageKind::Planar => fit_usize(width),
        _ => None,
    }
}

impl FrameLayoutInfo {
    /// Visible bytes per row of the first plane.
    pub fn first_plane_visible_row_bytes(&self, width: usize) -> (r: Option<usize>)
        ensures
            r == first_plane_row_bytes_spec(*self, width as int),
    {
        match self.storage {
            FrameStorageKind::Packed | FrameStorageKind::RawBayer => match self.bytes_per_pixel {
                Some(b) => checked_mul_usize(width, b),
                None => None,
            },
            FrameStorageKind::SemiPlanar | FrameStorageKind::Planar => Some(width),
            _ => None,
        }
    }
}

/// A layout record.
pub open spec fn mk_layout(
    storage: FrameStorageKind,
    planes: usize,
    subsampling: Option<ChromaSubsampling>,
    bytes_per_pixel: Option<usize>,
) -> FrameLayoutInfo {
    FrameLayoutInfo { storage, planes: PlaneSchema { planes, subsampling }, bytes_per_pixel }
}

/// The storage layout of each code.
pub open spec fn layout_info_of(c: FourCc) -> FrameLayoutInfo {
    if is_compressed_code(c) {
        mk_layout(FrameStorageKind::Compressed, 1, None, None)
    } else if c == FourCc::R8 || c == FourCc::GREY {
        mk_layout(FrameStorageKind::Packed, 1, None, Some(1))
    } else if c == FourCc::R16 || c == FourCc::YUYV || c == FourCc::UYVY || c == FourCc::YVYU
        || c == FourCc::VYUY {
        mk_layout(FrameStorageKind::Packed, 1, None, Some(2))
    } else if c == FourCc::RG24 || c == FourCc::RGB3 || c == FourCc::BGR3 || c == FourCc::BG24 {
        mk_layout(FrameStorageKind::Packed, 1, None, Some(3))
    } else if c == FourCc::RGBA || c == FourCc::BGRA || c == FourCc::XR24 || c == FourCc::XB24
        || c == FourCc::D32F {
        mk_layout(FrameStorageKind::Packed, 1, None, Some(4))
    } else if c == FourCc::RG48 || c == FourCc::BG48 {
        mk_layout(FrameStorageKind::Packed, 1, None, Some(6))
    } else if c == FourCc::NV12 || c == FourCc::NV21 {
        mk_layout(FrameStorageKind::SemiPlanar, 2, Some(ChromaSubsampling::Cs420), None)
    } else if c == FourCc::Other(CODE_NV16) || c == FourCc::Other(CODE_NV61) {
        mk_layout(FrameStorageKind::SemiPlanar, 2, Some(ChromaSubsampling::Cs422), None)
    } else if c == FourCc::Other(CODE_NV24) || c == FourCc::Other(CODE_NV42) {
        mk_layout(FrameStorageKind::SemiPlanar, 2, Some(ChromaSubsampling::Cs444), None)
    } else if c == FourCc::I420 || c == FourCc::YU12 || c == FourCc::YV12 {
        mk_layout(FrameStorageKind::Planar, 3, Some(ChromaSubsampling::Cs420), None)
    } else if c == FourCc::Other(CODE_YU16) || c == FourCc::Other(CODE_YV16) {
        mk_layout(FrameStorageKind::Planar, 3, Some(ChromaSubsampling::Cs422), None)
    } else if c == FourCc::Other(CODE_YU24) || c == FourCc::Other(CODE_YV24) {
        mk_layout(FrameStorageKind::Planar, 3, Some(ChromaSubsampling::Cs444), None)
    } else {
        mk_layout(FrameStorageKind::Unknown, 0, None, None)
    }
}

fn layout(
    storage: FrameStorageKind,
    planes: usize,
    subsampling: Option<ChromaSubsampling>,
    bytes_per_pixel: Option<usize>,
) -> (r: FrameLayoutInfo)
    ensures
        r == mk_layout(storage, planes, subsampling, bytes_per_pixel),
{
    FrameLayoutInfo { storage, planes: PlaneSchema { planes, subsampling }, bytes_per_pixel }
}

impl FourCc {
    /// Storage layout this code implies.
    pub fn layout_info(self) -> (r: FrameLayoutInfo)
        ensures
            r == layout_info_of(self),
    {
        let c = self;
        if c.is_compressed() {
            layout(FrameStorageKind::Compressed, 1, None, None)
        } else if c == FourCc::R8 || c == FourCc::GREY {
            layout(FrameStorageKind::Packed, 1, None, Some(1))
        } else if c == FourCc::R16 || c == FourCc::YUYV || c == FourCc::UYVY || c == FourCc::YVYU
            || c == FourCc::VYUY {
            layout(FrameStorageKind::Packed, 1, None, Some(2))
        } else if c == FourCc::RG24 || c == FourCc::RGB3 || c == FourCc::BGR3 || c
            == FourCc::BG24 {
            layout(FrameStorageKind::Packed, 1, None, Some(3))
        } else if c == FourCc::RGBA || c == FourCc::BGRA || c == FourCc::XR24 || c
            == FourCc::XB24 || c == FourCc::D32F {
            layout(FrameStorageKind::Packed, 1, None, Some(4))
        } else if c == FourCc::RG48 || c == FourCc::BG48 {
            layout(FrameStorageKind::Packed, 1, None, Some(6))
        } else if c == FourCc::NV12 || c == FourCc::NV21 {
            layout(FrameStorageKind::SemiPlanar, 2, Some(ChromaSubsampling::Cs420), None)
        } else if c == FourCc::Other(CODE_NV16) || c == FourCc::Other(CODE_NV61) {
            layout(FrameStorageKind::SemiPlanar, 2, Some(ChromaSubsampling::Cs422), None)
        } else if c == FourCc::Other(CODE_NV24) || c == FourCc::Other(CODE_NV42) {
            layout(FrameStorageKind::SemiPlanar, 2, Some(ChromaSubsampling::Cs444), None)
        } else if c == FourCc::I420 || c == FourCc::YU12 || c == FourCc::YV12 {
            layout(FrameStorageKind::Planar, 3, Some(ChromaSubsampling::Cs420), None)
        } else if c == FourCc::Other(CODE_YU16) || c == FourCc::Other(CODE_YV16) {
            layout(FrameStorageKind::Planar, 3, Some(ChromaSubsampling::Cs422), None)
        } else if c == FourCc::Other(CODE_YU24) || c == FourCc::Other(CODE_YV24) {
            layout(FrameStorageKind::Planar, 3, Some(ChromaSubsampling::Cs444), None)
        } else {
            layout(FrameStorageKind::Unknown, 0, None, None)
        }
    }
}


/// A code's value is the little-endian reading of its four bytes.
pub(crate) proof fn lemma_fourcc_bytes_value(c: u32)
    ensures
        fourcc_bytes(c).len() == 4,
        le_u32(fourcc_bytes(c)) == c,
{
    let b = fourcc_bytes(c);
    assert(b[0] == c % 256 && b[1] == (c / 256) % 256 && b[2] == (c / 65536) % 256 && b[3] == c / 16777216);
    assert(c == b[0] + 256 * b[1] + 65536 * b[2] + 16777216 * b[3]) by (nonlinear_arith)
        requires
            b[0] == c % 256,
            b[1] == (c / 256) % 256,
            b[2] == (c / 65536) % 256,
            b[3] == c / 16777216,
            0 <= c < 0x1_0000_0000,
    ;
}

/// The layout of a YUV code follows its name: `NV12`/`NV21` are
/// semi-planar 4:2:0 (half width, half height chroma), `NV16`/`NV61`
/// semi-planar 4:2:2 (half width, full height), `NV24`/`NV42` semi-planar
/// 4:4:4, each in two planes; `I420`, `YU12`/`YV12` are planar 4:2:0,
/// `YU16`/`YV16` planar 4:2:2 and `YU24`/`YV24` planar 4:4:4, each in
/// three planes.
pub proof fn lemma_layout_follows_name(code: FourCc)
    requires
        code.well_formed(),
    ensures
        ({
            let b = fourcc_bytes(code@);
            let l = layout_info_of(code);
            let digits = |d0: char, d1: char| b[2] == d0 as u8 && b[3] == d1 as u8;
            let semi = b[0] == 'N' as u8 && b[1] == 'V' as u8;
            let planar = b[0] == 'Y' as u8 && (b[1] == 'U' as u8 || b[1] == 'V' as u8);
            let i420 = b[0] == 'I' as u8 && b[1] == '4' as u8 && digits('2', '0');
            &&& semi && (digits('1', '2') || digits('2', '1')) ==> l == mk_layout(
                FrameStorageKind::SemiPlanar,
                2,
                Some(ChromaSubsampling::Cs420),
                None,
            )
            &&& semi && (digits('1', '6') || digits('6', '1')) ==> l == mk_layout(
                FrameStorageKind::SemiPlanar,
                2,
                Some(ChromaSubsampling::Cs422),
                None,
            )
            &&& semi && (digits('2', '4') || digits('4', '2')) ==> l == mk_layout(
                FrameStorageKind::SemiPlanar,
                2,
                Some(ChromaSubsampling::Cs444),
                None,
            )
            &&& (i420 || planar && digits('1', '2')) ==> l == mk_layout(
                FrameStorageKind::Planar,
                3,
                Some(ChromaSubsampling::Cs420),
                None,
            )
            &&& planar && digits('1', '6') ==> l == mk_layout(
                FrameStorageKind::Planar,
                3,
                Some(ChromaSubsampling::Cs422),
                None,
            )
            &&& planar && digits('2', '4') ==> l == mk_layout(
                FrameStorageKind::Planar,
                3,
                Some(ChromaSubsampling::Cs444),
                None,
            )
        }),
{
    let b = fourcc_bytes(code@);
    lemma_fourcc_bytes_value(code@);
    let v = code@ as int;
    assert(v == b[0] + 256 * b[1] + 65536 * b[2] + 16777216 * b[3]);
    if v == CODE_NV16 as int {
        lemma_fourcc_value_determines_code(code, FourCc::Other(CODE_NV16));
    } else if v == CODE_NV61 as int {
        lemma_fourcc_value_determines_code(code, FourCc::Other(CODE_NV61));
    } else if v == CODE_NV24 as int {
        lemma_fourcc_value_determines_code(code, FourCc::Other(CODE_NV24));
    } else if v == CODE_NV42 as int {
        lemma_fourcc_value_determines_code(code, FourCc::Other(CODE_NV42));
    } else if v == CODE_YU16 as int {
        lemma_fourcc_value_determines_code(code, FourCc::Other(CODE_YU16));
    } else if v == CODE_YV16 as int {
        lemma_fourcc_value_determines_code(code, FourCc::Other(CODE_YV16));
    } else if v == CODE_YU24 as int {
        lemma_fourcc_value_determines_code(code, FourCc::Other(CODE_YU24));
    } else if v == CODE_YV24 as int {
        lemma_fourcc_value_determines_code(code, FourCc::Other(CODE_YV24));
    } else if v == FourCc::NV12@ as int {
        lemma_fourcc_value_determines_code(code, FourCc::NV12);
    } else if v == FourCc::NV21@ as int {
        lemma_fourcc_value_determines_code(code, FourCc::NV21);
    } else if v == FourCc::I420@ as int {
        lemma_fourcc_value_determines_code(code, FourCc::I420);
    } else if v == FourCc::YU12@ as int {
        lemma_fourcc_value_determines_code(code, FourCc::YU12);
    } else if v == FourCc::YV12@ as int {
        lemma_fourcc_value_determines_code(code, FourCc::YV12);
    }
}

/// A well-formed code is determined by its numeric value: two well-formed
/// codes with the same value are the same code, so `from_u32` gives back
/// every well-formed code from `to_u32`, and `new` from `to_bytes`.
pub proof fn lemma_fourcc_value_determines_code(a: FourCc, b: FourCc)
    requires
        a.well_formed(),
        b.well_formed(),
        a@ == b@,
    ensures
        a == b,
{
}

} // verus!
