//! Raw Bayer sensor data: which codes carry which mosaic pattern and sample
//! packing, sampling single sites, and unpacking MIPI-packed rows.
use vstd::prelude::*;

use crate::format::{FourCc, MediaFormat};
use crate::meta::FrameMeta;
use crate::raw::{decoded_meta, CodecError};
use crate::rows::Plane;
use vstd::slice::slice_subrange;

verus! {

/// Color filter layout of the top-left 2x2 block of a Bayer mosaic.
#[allow(clippy::upper_case_acronyms)]
#[derive(Debug, Clone, Copy, PartialEq, Eq, Structural)]
pub enum BayerPattern {
    RGGB,
    BGGR,
    GBRG,
    GRBG,
}

/// Pattern and sample packing of a Bayer code.  `bytes_per_sample` is 0 for
/// MIPI-packed samples (10-bit samples in groups of five bytes per four, or
/// 12-bit samples in three bytes per two).
#[derive(Debug, Clone, Copy, PartialEq, Eq, Structural)]
pub struct BayerInfo {
    pub pattern: BayerPattern,
    pub bit_depth: u8,
    pub bytes_per_sample: usize,
}

/// Little-endian code of four ASCII bytes.
pub open spec fn code4(a: u8, b: u8, c: u8, d: u8) -> u32 {
    (a + 256 * b + 65536 * c + 16777216 * d) as u32
}

/// A Bayer description.
pub open spec fn bi(pattern: BayerPattern, bit_depth: u8, bytes_per_sample: usize) -> BayerInfo {
    BayerInfo { pattern, bit_depth, bytes_per_sample }
}

/// The Bayer description of each Bayer code.
pub open spec fn bayer_info_of(c: u32) -> Option<BayerInfo> {
    if c == code4(66, 65, 56, 49) {
        Some(bi(BayerPattern::BGGR, 8, 1))
    } else if c == code4(66, 65, 49, 48) {
        Some(bi(BayerPattern::GRBG, 10, 2))
    } else if c == code4(66, 65, 49, 50) {
        Some(bi(BayerPattern::GRBG, 12, 2))
    } else if c == code4(66, 65, 49, 52) {
        Some(bi(BayerPattern::GRBG, 14, 2))
    } else if c == code4(66, 71, 49, 48) {
        Some(bi(BayerPattern::BGGR, 10, 2))
    } else if c == code4(66, 71, 49, 50) {
        Some(bi(BayerPattern::BGGR, 12, 2))
    } else if c == code4(66, 71, 49, 52) {
        Some(bi(BayerPattern::BGGR, 14, 2))
    } else if c == code4(66, 71, 49, 54) {
        Some(bi(BayerPattern::BGGR, 16, 2))
    } else if c == code4(71, 66, 49, 48) {
        Some(bi(BayerPattern::GBRG, 10, 2))
    } else if c == code4(71, 66, 49, 50) {
        Some(bi(BayerPattern::GBRG, 12, 2))
    } else if c == code4(71, 66, 49, 52) {
        Some(bi(BayerPattern::GBRG, 14, 2))
    } else if c == code4(71, 66, 49, 54) {
        Some(bi(BayerPattern::GBRG, 16, 2))
    } else if c == code4(82, 71, 49, 48) {
        Some(bi(BayerPattern::RGGB, 10, 2))
    } else if c == code4(82, 71, 49, 50) {
        Some(bi(BayerPattern::RGGB, 12, 2))
    } else if c == code4(82, 71, 49, 52) {
        Some(bi(BayerPattern::RGGB, 14, 2))
    } else if c == code4(82, 71, 49, 54) {
        Some(bi(BayerPattern::RGGB, 16, 2))
    } else if c == code4(71, 82, 49, 48) {
        Some(bi(BayerPattern::GRBG, 10, 2))
    } else if c == code4(71, 82, 49, 50) {
        Some(bi(BayerPattern::GRBG, 12, 2))
    } else if c == code4(71, 82, 49, 52) {
        Some(bi(BayerPattern::GRBG, 14, 2))
    } else if c == code4(71, 82, 49, 54) {
        Some(bi(BayerPattern::GRBG, 16, 2))
    } else if c == code4(66, 89, 82, 50) {
        Some(bi(BayerPattern::BGGR, 16, 2))
    } else if c == code4(82, 71, 71, 66) {
        Some(bi(BayerPattern::RGGB, 8, 1))
    } else if c == code4(71, 82, 66, 71) {
        Some(bi(BayerPattern::GRBG, 8, 1))
    } else if c == code4(71, 66, 82, 71) {
        Some(bi(BayerPattern::GBRG, 8, 1))
    } else if c == code4(66, 71, 71, 82) {
        Some(bi(BayerPattern::BGGR, 8, 1))
    } else if c == code4(112, 66, 65, 65) {
        Some(bi(BayerPattern::BGGR, 10, 0))
    } else if c == code4(112, 71, 65, 65) {
        Some(bi(BayerPattern::GBRG, 10, 0))
    } else if c == code4(112, 103, 65, 65) {
        Some(bi(BayerPattern::GRBG, 10, 0))
    } else if c == code4(112, 82, 65, 65) {
        Some(bi(BayerPattern::RGGB, 10, 0))
    } else if c == code4(112, 66, 67, 67) {
        Some(bi(BayerPattern::BGGR, 12, 0))
    } else if c == code4(112, 71, 67, 67) {
        Some(bi(BayerPattern::GBRG, 12, 0))
    } else if c == code4(112, 103, 67, 67) {
        Some(bi(BayerPattern::GRBG, 12, 0))
    } else if c == code4(112, 82, 67, 67) {
        Some(bi(BayerPattern::RGGB, 12, 0))
    } else {
        None
    }
}

/// Pattern and sample packing of a Bayer code, `None` for other codes.
pub fn bayer_info(fourcc: FourCc) -> (r: Option<BayerInfo>)
    ensures
        r == bayer_info_of(fourcc@),
{
    let b = fourcc.to_bytes();
    let c = fourcc.to_u32();
    let (p, d, s): (BayerPattern, u8, usize) = if b[0] == 66 && b[1] == 65 && b[2] == 56 && b[3]
        == 49 {
        (BayerPattern::BGGR, 8, 1)
    } else if b[0] == 66 && b[1] == 65 && b[2] == 49 && b[3] == 48 {
        (BayerPattern::GRBG, 10, 2)
    } else if b[0] == 66 && b[1] == 65 && b[2] == 49 && b[3] == 50 {
        (BayerPattern::GRBG, 12, 2)
    } else if b[0] == 66 && b[1] == 65 && b[2] == 49 && b[3] == 52 {
        (BayerPattern::GRBG, 14, 2)
    } else if b[0] == 66 && b[1] == 71 && b[2] == 49 && b[3] == 48 {
        (BayerPattern::BGGR, 10, 2)
    } else if b[0] == 66 && b[1] == 71 && b[2] == 49 && b[3] == 50 {
        (BayerPattern::BGGR, 12, 2)
    } else if b[0] == 66 && b[1] == 71 && b[2] == 49 && b[3] == 52 {
        (BayerPattern::BGGR, 14, 2)
    } else if b[0] == 66 && b[1] == 71 && b[2] == 49 && b[3] == 54 {
        (BayerPattern::BGGR, 16, 2)
    } else if b[0] == 71 && b[1] == 66 && b[2] == 49 && b[3] == 48 {
        (BayerPattern::GBRG, 10, 2)
    } else if b[0] == 71 && b[1] == 66 && b[2] == 49 && b[3] == 50 {
        (BayerPattern::GBRG, 12, 2)
    } else if b[0] == 71 && b[1] == 66 && b[2] == 49 && b[3] == 52 {
        (BayerPattern::GBRG, 14, 2)
    } else if b[0] == 71 && b[1] == 66 && b[2] == 49 && b[3] == 54 {
        (BayerPattern::GBRG, 16, 2)
    } else if b[0] == 82 && b[1] == 71 && b[2] == 49 && b[3] == 48 {
        (BayerPattern::RGGB, 10, 2)
    } else if b[0] == 82 && b[1] == 71 && b[2] == 49 && b[3] == 50 {
        (BayerPattern::RGGB, 12, 2)
    } else if b[0] == 82 && b[1] == 71 && b[2] == 49 && b[3] == 52 {
        (BayerPattern::RGGB, 14, 2)
    } else if b[0] == 82 && b[1] == 71 && b[2] == 49 && b[3] == 54 {
        (BayerPattern::RGGB, 16, 2)
    } else if b[0] == 71 && b[1] == 82 && b[2] == 49 && b[3] == 48 {
        (BayerPattern::GRBG, 10, 2)
    } else if b[0] == 71 && b[1] == 82 && b[2] == 49 && b[3] == 50 {
        (BayerPattern::GRBG, 12, 2)
    } else if b[0] == 71 && b[1] == 82 && b[2] == 49 && b[3] == 52 {
        (BayerPattern::GRBG, 14, 2)
    } else if b[0] == 71 && b[1] == 82 && b[2] == 49 && b[3] == 54 {
        (BayerPattern::GRBG, 16, 2)
    } else if b[0] == 66 && b[1] == 89 && b[2] == 82 && b[3] == 50 {
        (BayerPattern::BGGR, 16, 2)
    } else if b[0] == 82 && b[1] == 71 && b[2] == 71 && b[3] == 66 {
        (BayerPattern::RGGB, 8, 1)
    } else if b[0] == 71 && b[1] == 82 && b[2] == 66 && b[3] == 71 {
        (BayerPattern::GRBG, 8, 1)
    } else if b[0] == 71 && b[1] == 66 && b[2] == 82 && b[3] == 71 {
        (BayerPattern::GBRG, 8, 1)
    } else if b[0] == 66 && b[1] == 71 && b[2] == 71 && b[3] == 82 {
        (BayerPattern::BGGR, 8, 1)
    } else if b[0] == 112 && b[1] == 66 && b[2] == 65 && b[3] == 65 {
        (BayerPattern::BGGR, 10, 0)
    } else if b[0] == 112 && b[1] == 71 && b[2] == 65 && b[3] == 65 {
        (BayerPattern::GBRG, 10, 0)
    } else if b[0] == 112 && b[1] == 103 && b[2] == 65 && b[3] == 65 {
        (BayerPattern::GRBG, 10, 0)
    } else if b[0] == 112 && b[1] == 82 && b[2] == 65 && b[3] == 65 {
        (BayerPattern::RGGB, 10, 0)
    } else if b[0] == 112 && b[1] == 66 && b[2] == 67 && b[3] == 67 {
        (BayerPattern::BGGR, 12, 0)
    } else if b[0] == 112 && b[1] == 71 && b[2] == 67 && b[3] == 67 {
        (BayerPattern::GBRG, 12, 0)
    } else if b[0] == 112 && b[1] == 103 && b[2] == 67 && b[3] == 67 {
        (BayerPattern::GRBG, 12, 0)
    } else if b[0] == 112 && b[1] == 82 && b[2] == 67 && b[3] == 67 {
        (BayerPattern::RGGB, 12, 0)
    } else {
        proof {
            lemma_bytes_determine_code(b@, c);
        }
        return None;
    };
    proof {
        lemma_bytes_determine_code(b@, c);
    }
    Some(BayerInfo { pattern: p, bit_depth: d, bytes_per_sample: s })
}

/// A Bayer code's name spells its description.  The pattern is named by
/// the first two letters (`RG..` RGGB, `GR..` GRBG, `BG..` BGGR, `GB..`
/// GBRG), by the letter after `p` for MIPI-packed codes (`pR` RGGB, `pg`
/// GRBG, `pB` BGGR, `pG` GBRG), and is GRBG for `BA1x`, BGGR for `BA81`
/// and `BYR2`.  Two digits `1x` give a depth of `10 + x` bits in two-byte
/// samples; packed codes are 10-bit (`..AA`) or 12-bit (`..CC`) with no
/// whole bytes per sample; the four-letter pattern names and `BA81` are
/// 8-bit, one byte per sample.  Each such name is a Bayer code.
pub proof fn lemma_bayer_info_follows_name(code: FourCc)
    ensures
        ({
            let b = crate::format::fourcc_bytes(code@);
            let named = |p0: char, p1: char| b[0] == p0 as u8 && b[1] == p1 as u8;
            let r = bayer_info_of(code@);
            &&& r matches Some(info) ==> {
                &&& (named('R', 'G') || named('p', 'R')) ==> info.pattern == BayerPattern::RGGB
                &&& (named('G', 'R') || named('p', 'g') || (named('B', 'A') && b[2] == '1' as u8))
                    ==> info.pattern == BayerPattern::GRBG
                &&& (named('B', 'G') || named('p', 'B') || (named('B', 'A') && b[2] == '8' as u8) || named('B', 'Y'))
                    ==> info.pattern == BayerPattern::BGGR
                &&& (named('G', 'B') || named('p', 'G')) ==> info.pattern == BayerPattern::GBRG
                &&& b[0] != 'p' as u8 && b[2] == '1' as u8 ==> info.bit_depth == 10 + (b[3] - '0' as u8)
                    && info.bytes_per_sample == 2
                &&& b[0] == 'p' as u8 ==> info.bytes_per_sample == 0 && (b[2] == 'A' as u8 ==> info.bit_depth == 10)
                    && (b[2] == 'C' as u8 ==> info.bit_depth == 12)
                &&& (b[2] == 'G' as u8 || b[2] == 'B' as u8 || b[2] == '8' as u8 || named('G', 'B') && b[2]
                    == 'R' as u8) ==> info.bit_depth == 8
                    && info.bytes_per_sample == 1
            }
            &&& (code@ == code4(82, 71, 71, 66) || code@ == code4(71, 82, 66, 71) || code@ == code4(71, 66, 82, 71)
                || code@ == code4(66, 71, 71, 82)) ==> r is Some
            &&& (named('R', 'G') || named('G', 'R') || named('B', 'G') || named('G', 'B')) && b[2] == '1' as u8 && (b[3]
                == '0' as u8 || b[3] == '2' as u8 || b[3] == '4' as u8 || b[3] == '6' as u8) ==> r is Some
            &&& named('B', 'A') && b[2] == '1' as u8 && (b[3] == '0' as u8 || b[3] == '2' as u8 || b[3] == '4' as u8)
                ==> r is Some
            &&& (named('p', 'R') || named('p', 'g') || named('p', 'B') || named('p', 'G')) && (b[2] == 'A' as u8 || b[2]
                == 'C' as u8) && b[3] == b[2] ==> r is Some
        }),
{
    let c = code@;
    let b = crate::format::fourcc_bytes(c);
    crate::format::lemma_fourcc_bytes_value(c);
    lemma_bytes_determine_code(b, c);
}


proof fn lemma_bytes_determine_code(b: Seq<u8>, c: u32)
    requires
        b.len() == 4,
        crate::format::le_u32(b) == c,
    ensures
        forall|p: u8, q: u8, r: u8, s: u8|
            #![trigger code4(p, q, r, s)]
            (c == code4(p, q, r, s) <==> (b[0] == p && b[1] == q && b[2] == r && b[3] == s)),
{
    assert forall|p: u8, q: u8, r: u8, s: u8|
        #![trigger code4(p, q, r, s)]
        (c == code4(p, q, r, s) <==> (b[0] == p && b[1] == q && b[2] == r && b[3] == s)) by {
        let b0 = b[0] as int;
        let b1 = b[1] as int;
        let b2 = b[2] as int;
        let b3 = b[3] as int;
        if c == code4(p, q, r, s) {
            assert(b0 + 256 * b1 + 65536 * b2 + 16777216 * b3 == p + 256 * q + 65536 * r
                + 16777216 * s);
            assert(b0 == p as int && b1 == q as int && b2 == r as int && b3 == s as int) by (nonlinear_arith)
                requires
                    b0 + 256 * b1 + 65536 * b2 + 16777216 * b3 == p + 256 * q + 65536 * r
                        + 16777216 * s,
                    0 <= b0 < 256,
                    0 <= b1 < 256,
                    0 <= b2 < 256,
                    0 <= b3 < 256,
                    0 <= p < 256,
                    0 <= q < 256,
                    0 <= r < 256,
                    0 <= s < 256,
            ;
        }
    }
}

} // verus!
verus! {

/// Byte `i` of `data` widened to 16 bits, or 0 past either end.
pub open spec fn byte_or_zero(data: Seq<u8>, i: int) -> u16 {
    if 0 <= i < data.len() {
        data[i] as u16
    } else {
        0
    }
}

/// A 10-bit sample from its low byte `b` and the shared byte `b4`, whose
/// bits `2 * idx` and `2 * idx + 1` become bits 8 and 9.
pub open spec fn raw10_bits(b: u16, b4: u16, idx: int) -> u16 {
    b | (((b4 >> ((idx * 2) as u16)) & 3u16) << 8u16)
}

/// A 12-bit sample from its low byte and the shared byte `b2`, whose low
/// nibble belongs to the first sample of the pair and high nibble to the
/// second.
pub open spec fn raw12_bits(lo: u16, b2: u16, second: bool) -> u16 {
    if second {
        lo | (((b2 >> 4u16) & 0x0fu16) << 8u16)
    } else {
        lo | ((b2 & 0x0fu16) << 8u16)
    }
}

/// The 10-bit sample `x` of a MIPI RAW10 row starting at `start`: four
/// samples share five bytes, the fifth holding the two low-order bits of
/// each.  Bytes past the data read as 0.
pub open spec fn raw10_at(data: Seq<u8>, start: int, x: int) -> u16 {
    let base = start + (x / 4) * 5;
    raw10_bits(byte_or_zero(data, base + x % 4), byte_or_zero(data, base + 4), x % 4)
}

/// The 12-bit sample `x` of a MIPI RAW12 row starting at `start`: two
/// samples share three bytes.  Bytes past the data read as 0.
pub open spec fn raw12_at(data: Seq<u8>, start: int, x: int) -> u16 {
    let base = start + (x / 2) * 3;
    if x % 2 == 0 {
        raw12_bits(byte_or_zero(data, base), byte_or_zero(data, base + 2), false)
    } else {
        raw12_bits(byte_or_zero(data, base + 1), byte_or_zero(data, base + 2), true)
    }
}

fn raw10_combine(b: u16, b4: u16, idx: usize) -> (r: u16)
    requires
        idx < 4,
    ensures
        r == raw10_bits(b, b4, idx as int),
{
    b | (((b4 >> ((idx * 2) as u16)) & 3u16) << 8u16)
}

fn raw12_combine(lo: u16, b2: u16, second: bool) -> (r: u16)
    ensures
        r == raw12_bits(lo, b2, second),
{
    if second {
        lo | (((b2 >> 4u16) & 0x0fu16) << 8u16)
    } else {
        lo | ((b2 & 0x0fu16) << 8u16)
    }
}

/// Byte `base + off` of `data`, or 0 where that index is past the end
/// (including where it does not fit in a `usize`).
fn byte_at(data: &[u8], base: usize, off: usize) -> (r: u16)
    ensures
        r == byte_or_zero(data@, base + off),
{
    let n = data.len();
    match base.checked_add(off) {
        Some(i) => {
            if i < n {
                data[i] as u16
            } else {
                0
            }
        },
        None => 0,
    }
}

/// Sample `x` of a RAW10 row starting at byte `start` of `data`.
pub fn raw10_sample(data: &[u8], start: usize, x: usize) -> (r: u16)
    ensures
        r == raw10_at(data@, start as int, x as int),
{
    let n = data.len();
    let idx = x % 4;
    match (x / 4).checked_mul(5) {
        Some(g) => match start.checked_add(g) {
            Some(base) => raw10_combine(byte_at(data, base, idx), byte_at(data, base, 4), idx),
            None => raw10_combine(0, 0, idx),
        },
        None => raw10_combine(0, 0, idx),
    }
}

/// Sample `x` of a RAW12 row starting at byte `start` of `data`.
pub fn raw12_sample(data: &[u8], start: usize, x: usize) -> (r: u16)
    ensures
        r == raw12_at(data@, start as int, x as int),
{
    let n = data.len();
    let second = x % 2 == 1;
    match (x / 2).checked_mul(3) {
        Some(g) => match start.checked_add(g) {
            Some(base) => {
                let lo = if second {
                    byte_at(data, base, 1)
                } else {
                    byte_at(data, base, 0)
                };
                raw12_combine(lo, byte_at(data, base, 2), second)
            },
            None => raw12_combine(0, 0, second),
        },
        None => raw12_combine(0, 0, second),
    }
}

/// Unpack the first `width` samples of a RAW10 row into `dst`; the rest of
/// `dst` is left as it was.
pub fn unpack_raw10_row(dst: &mut [u16], src: &[u8], width: usize)
    requires
        width <= old(dst)@.len(),
    ensures
        final(dst)@.len() == old(dst)@.len(),
        forall|x: int| 0 <= x < width ==> #[trigger] final(dst)@[x] == raw10_at(src@, 0, x),
        forall|x: int| width <= x < old(dst)@.len() ==> #[trigger] final(dst)@[x] == old(dst)@[x],
{
    let mut x: usize = 0;
    while x < width
        invariant
            x <= width,
            width <= dst@.len(),
            dst@.len() == old(dst)@.len(),
            forall|k: int| 0 <= k < x ==> #[trigger] dst@[k] == raw10_at(src@, 0, k),
            forall|k: int| width <= k < old(dst)@.len() ==> #[trigger] dst@[k] == old(dst)@[k],
        decreases width - x,
    {
        dst[x] = raw10_sample(src, 0, x);
        x = x + 1;
    }
}

/// Unpack the first `width` samples of a RAW12 row into `dst`; the rest of
/// `dst` is left as it was.
pub fn unpack_raw12_row(dst: &mut [u16], src: &[u8], width: usize)
    requires
        width <= old(dst)@.len(),
    ensures
        final(dst)@.len() == old(dst)@.len(),
        forall|x: int| 0 <= x < width ==> #[trigger] final(dst)@[x] == raw12_at(src@, 0, x),
        forall|x: int| width <= x < old(dst)@.len() ==> #[trigger] final(dst)@[x] == old(dst)@[x],
{
    let mut x: usize = 0;
    while x < width
        invariant
            x <= width,
            width <= dst@.len(),
            dst@.len() == old(dst)@.len(),
            forall|k: int| 0 <= k < x ==> #[trigger] dst@[k] == raw12_at(src@, 0, k),
            forall|k: int| width <= k < old(dst)@.len() ==> #[trigger] dst@[k] == old(dst)@[k],
        decreases width - x,
    {
        dst[x] = raw12_sample(src, 0, x);
        x = x + 1;
    }
}

/// Smallest row pitch holding `width` samples: `bps` bytes each (saturating),
/// or MIPI packed (RAW10: five bytes per four samples, RAW12: three per two)
/// when `bps` is 0; 0 for other packed depths.
pub open spec fn min_stride_spec(width: int, bit_depth: u8, bps: int) -> int {
    if bps > 0 {
        if width * bps > usize::MAX {
            usize::MAX as int
        } else {
            width * bps
        }
    } else if bit_depth == 10 {
        ((width + 3) / 4) * 5
    } else if bit_depth == 12 {
        ((width + 1) / 2) * 3
    } else {
        0
    }
}

/// Smallest row pitch of a Bayer row of `width` samples.
pub fn min_stride(width: usize, bit_depth: u8, bps: usize) -> (r: usize)
    requires
        bps == 0 ==> min_stride_spec(width as int, bit_depth, 0) <= usize::MAX,
    ensures
        r == min_stride_spec(width as int, bit_depth, bps as int),
{
    if bps > 0 {
        match width.checked_mul(bps) {
            Some(n) => n,
            None => usize::MAX,
        }
    } else if bit_depth == 10 {
        (width / 4 + if width % 4 == 0 { 0 } else { 1 }) * 5
    } else if bit_depth == 12 {
        (width / 2 + width % 2) * 3
    } else {
        0
    }
}

/// Shift that brings a `bit_depth`-bit sample down to 8 bits.
pub open spec fn depth_shift(bit_depth: u8) -> u16 {
    if bit_depth > 8 {
        (bit_depth - 8) as u16
    } else {
        0
    }
}

/// Coordinate `v` clamped into `0..n` (to 0 where `n` is 0).
pub open spec fn clamped(v: int, n: int) -> int {
    if n == 0 {
        0
    } else if v > n - 1 {
        n - 1
    } else {
        v
    }
}

/// Byte offset of the plain sample read for site `(x, y)`, coordinates
/// clamped into the frame.
pub open spec fn plain_offset(stride: int, bps: int, x: int, y: int, width: int, height: int) -> int {
    clamped(y, height) * stride + clamped(x, width) * bps
}

/// The 8-bit value of the Bayer site at `(x, y)`, coordinates clamped into
/// the `width` by `height` frame: a byte for one-byte samples, a
/// little-endian word shifted down to 8 bits for wider ones, an unpacked
/// RAW10 or RAW12 sample shifted down for packed rows, 0 for other packed
/// depths.
#[verifier::opaque]
pub open spec fn sample_spec(
    data: Seq<u8>,
    stride: int,
    bps: int,
    bit_depth: u8,
    x: int,
    y: int,
    width: int,
    height: int,
) -> u8 {
    let xs = clamped(x, width);
    let row_off = clamped(y, height) * stride;
    let shift = depth_shift(bit_depth);
    let o = plain_offset(stride, bps, x, y, width, height);
    if bps == 1 {
        data[o]
    } else if bps > 0 {
        (((data[o] as u16) | ((data[o + 1] as u16) << 8u16)) >> shift) as u8
    } else if bit_depth == 10 {
        (raw10_at(data, row_off, xs) >> shift) as u8
    } else if bit_depth == 12 {
        (raw12_at(data, row_off, xs) >> shift) as u8
    } else {
        0
    }
}

/// The bytes a plain sample of site `(x, y)` is read from lie within
/// `len` bytes.
pub open spec fn sample_readable(len: int, stride: int, bps: int, x: int, y: int, width: int, height: int) -> bool {
    bps > 0 ==> plain_offset(stride, bps, x, y, width, height) + (if bps == 1 { 0int } else { 1int })
        < len
}

proof fn lemma_nonneg_products(a: int, b: int, c: int, d: int)
    by (nonlinear_arith)
    requires
        0 <= a,
        0 <= b,
        0 <= c,
        0 <= d,
    ensures
        0 <= a * b,
        0 <= c * d,
{
}

/// The 8-bit value of the Bayer site at `(x, y)`, coordinates clamped.
pub fn sample_at(
    data: &[u8],
    stride: usize,
    bps: usize,
    bit_depth: u8,
    x: usize,
    y: usize,
    width: usize,
    height: usize,
) -> (r: u8)
    requires
        bit_depth < 24,
        sample_readable(data@.len() as int, stride as int, bps as int, x as int, y as int, width as int, height as int),
    ensures
        r == sample_spec(data@, stride as int, bps as int, bit_depth, x as int, y as int, width as int, height as int),
{
    reveal(sample_spec);
    let n = data.len();
    let xs = if width == 0 {
        0
    } else if x > width - 1 {
        width - 1
    } else {
        x
    };
    let ys = if height == 0 {
        0
    } else if y > height - 1 {
        height - 1
    } else {
        y
    };
    let shift: u16 = if bit_depth > 8 {
        (bit_depth - 8) as u16
    } else {
        0
    };
    proof {
        lemma_nonneg_products(ys as int, stride as int, xs as int, bps as int);
    }
    if bps > 0 {
        let o = ys * stride + xs * bps;
        if bps == 1 {
            return data[o];
        }
        let lo = data[o] as u16;
        let hi = data[o + 1] as u16;
        return ((lo | (hi << 8u16)) >> shift) as u8;
    }
    if bit_depth == 10 {
        let v = match ys.checked_mul(stride) {
            Some(row_off) => raw10_sample(data, row_off, xs),
            None => raw10_combine(0, 0, xs % 4),
        };
        (v >> shift) as u8
    } else if bit_depth == 12 {
        let v = match ys.checked_mul(stride) {
            Some(row_off) => raw12_sample(data, row_off, xs),
            None => raw12_combine(0, 0, xs % 2 == 1),
        };
        (v >> shift) as u8
    } else {
        0
    }
}


/// Preconditions of sampling a whole Bayer frame: it has a site, the depth
/// can be shifted down to 8 bits, and plain samples fill rows `stride`
/// bytes apart within the data.
pub open spec fn sampling_ok(len: int, stride: int, bps: int, bit_depth: u8, width: int, height: int) -> bool {
    &&& width >= 1
    &&& height >= 1
    &&& bit_depth < 24
    &&& bps > 0 ==> stride >= width * bps && stride * height <= len
}

proof fn lemma_plain_offset(ys: int, xs: int, stride: int, bps: int, width: int, height: int)
    by (nonlinear_arith)
    requires
        0 <= ys < height,
        0 <= xs < width,
        0 < bps,
        0 <= stride,
        stride >= width * bps,
    ensures
        ys * stride + xs * bps + bps <= stride * height,
{
    assert(xs * bps + bps <= width * bps);
    assert(ys * stride + stride <= height * stride);
}

proof fn lemma_frame_readable(len: int, stride: int, bps: int, bit_depth: u8, width: int, height: int)
    requires
        sampling_ok(len, stride, bps, bit_depth, width, height),
        0 <= stride,
        0 <= bps,
    ensures
        forall|x: int, y: int|
            #![trigger sample_readable(len, stride, bps, x, y, width, height)]
            0 <= x && 0 <= y ==> sample_readable(len, stride, bps, x, y, width, height),
{
    assert forall|x: int, y: int|
        #![trigger sample_readable(len, stride, bps, x, y, width, height)]
        0 <= x && 0 <= y implies sample_readable(len, stride, bps, x, y, width, height) by {
        if bps > 0 {
            lemma_plain_offset(clamped(y, height), clamped(x, width), stride, bps, width, height);
        }
    }
}

/// Which of red, green and blue the filter over site `(x, y)` passes.
pub open spec fn site_color(pattern: BayerPattern, x: int, y: int) -> (bool, bool, bool) {
    let ey = y % 2 == 0;
    let ex = x % 2 == 0;
    match pattern {
        BayerPattern::RGGB => if ey && ex {
            (true, false, false)
        } else if !ey && !ex {
            (false, false, true)
        } else {
            (false, true, false)
        },
        BayerPattern::BGGR => if ey && ex {
            (false, false, true)
        } else if !ey && !ex {
            (true, false, false)
        } else {
            (false, true, false)
        },
        BayerPattern::GBRG => if ey && !ex {
            (false, false, true)
        } else if !ey && ex {
            (true, false, false)
        } else {
            (false, true, false)
        },
        BayerPattern::GRBG => if ey && !ex {
            (true, false, false)
        } else if !ey && ex {
            (false, false, true)
        } else {
            (false, true, false)
        },
    }
}

fn color_at(pattern: BayerPattern, x: usize, y: usize) -> (r: (bool, bool, bool))
    ensures
        r == site_color(pattern, x as int, y as int),
{
    let ey = y % 2 == 0;
    let ex = x % 2 == 0;
    match pattern {
        BayerPattern::RGGB => if ey && ex {
            (true, false, false)
        } else if !ey && !ex {
            (false, false, true)
        } else {
            (false, true, false)
        },
        BayerPattern::BGGR => if ey && ex {
            (false, false, true)
        } else if !ey && !ex {
            (true, false, false)
        } else {
            (false, true, false)
        },
        BayerPattern::GBRG => if ey && !ex {
            (false, false, true)
        } else if !ey && ex {
            (true, false, false)
        } else {
            (false, true, false)
        },
        BayerPattern::GRBG => if ey && !ex {
            (true, false, false)
        } else if !ey && ex {
            (false, false, true)
        } else {
            (false, true, false)
        },
    }
}

/// Whether row `y` of the mosaic carries red sites.
pub open spec fn red_row(pattern: BayerPattern, y: int) -> bool {
    match pattern {
        BayerPattern::RGGB | BayerPattern::GRBG => y % 2 == 0,
        BayerPattern::BGGR | BayerPattern::GBRG => y % 2 == 1,
    }
}

/// Whether column `x` of the mosaic carries red sites.
pub open spec fn red_col(pattern: BayerPattern, x: int) -> bool {
    match pattern {
        BayerPattern::RGGB | BayerPattern::GBRG => x % 2 == 0,
        BayerPattern::BGGR | BayerPattern::GRBG => x % 2 == 1,
    }
}

/// RGB of site `(x, y)` by bilinear interpolation over 8-bit samples:
/// the site's own channel is its sample; a missing channel is the mean of
/// the four edge or four corner neighbours, or of the two neighbours along
/// the row or column that carry it.  Neighbours outside the frame are
/// clamped onto its edge.
pub open spec fn bilinear_rgb(
    data: Seq<u8>,
    stride: int,
    bps: int,
    bit_depth: u8,
    pattern: BayerPattern,
    width: int,
    height: int,
    x: int,
    y: int,
) -> (u8, u8, u8) {
    let s = |sx: int, sy: int| sample_spec(data, stride, bps, bit_depth, sx, sy, width, height) as int;
    let xl = if x > 0 { x - 1 } else { 0 };
    let yu = if y > 0 { y - 1 } else { 0 };
    let c = s(x, y);
    let cross = (s(x + 1, y) + s(x, y + 1) + s(xl, y) + s(x, yu)) / 4;
    let diag = (s(x + 1, y + 1) + s(xl, y + 1) + s(x + 1, yu) + s(xl, yu)) / 4;
    let horiz = (s(xl, y) + s(x + 1, y)) / 2;
    let vert = (s(x, yu) + s(x, y + 1)) / 2;
    let color = site_color(pattern, x, y);
    if color.0 {
        (c as u8, cross as u8, diag as u8)
    } else if color.2 {
        (diag as u8, cross as u8, c as u8)
    } else if red_row(pattern, y) == red_col(pattern, x) {
        (horiz as u8, c as u8, vert as u8)
    } else {
        (vert as u8, c as u8, horiz as u8)
    }
}

#[verifier::spinoff_prover]
#[verifier::rlimit(40)]
fn bilinear_site(
    data: &[u8],
    stride: usize,
    bps: usize,
    bit_depth: u8,
    pattern: BayerPattern,
    width: usize,
    height: usize,
    x: usize,
    y: usize,
) -> (r: (u8, u8, u8))
    requires
        sampling_ok(data@.len() as int, stride as int, bps as int, bit_depth, width as int, height as int),
        x < width,
        y < height,
    ensures
        r == bilinear_rgb(data@, stride as int, bps as int, bit_depth, pattern, width as int, height as int, x as int, y as int),
{
    proof {
        lemma_frame_readable(data@.len() as int, stride as int, bps as int, bit_depth, width as int, height as int);
    }
    let xl = if x > 0 {
        x - 1
    } else {
        0
    };
    let yu = if y > 0 {
        y - 1
    } else {
        0
    };
    let c = sample_at(data, stride, bps, bit_depth, x, y, width, height) as u16;
    let right = sample_at(data, stride, bps, bit_depth, x + 1, y, width, height) as u16;
    let down = sample_at(data, stride, bps, bit_depth, x, y + 1, width, height) as u16;
    let left = sample_at(data, stride, bps, bit_depth, xl, y, width, height) as u16;
    let up = sample_at(data, stride, bps, bit_depth, x, yu, width, height) as u16;
    let down_right = sample_at(data, stride, bps, bit_depth, x + 1, y + 1, width, height) as u16;
    let down_left = sample_at(data, stride, bps, bit_depth, xl, y + 1, width, height) as u16;
    let up_right = sample_at(data, stride, bps, bit_depth, x + 1, yu, width, height) as u16;
    let up_left = sample_at(data, stride, bps, bit_depth, xl, yu, width, height) as u16;
    let cross = (right + down + left + up) / 4;
    let diag = (down_right + down_left + up_right + up_left) / 4;
    let horiz = (left + right) / 2;
    let vert = (up + down) / 2;
    let (is_r, _is_g, is_b) = color_at(pattern, x, y);
    if is_r {
        (c as u8, cross as u8, diag as u8)
    } else if is_b {
        (diag as u8, cross as u8, c as u8)
    } else {
        let on_red_row = match pattern {
            BayerPattern::RGGB | BayerPattern::GRBG => y % 2 == 0,
            BayerPattern::BGGR | BayerPattern::GBRG => y % 2 == 1,
        };
        let on_red_col = match pattern {
            BayerPattern::RGGB | BayerPattern::GBRG => x % 2 == 0,
            BayerPattern::BGGR | BayerPattern::GRBG => x % 2 == 1,
        };
        if on_red_row == on_red_col {
            (horiz as u8, c as u8, vert as u8)
        } else {
            (vert as u8, c as u8, horiz as u8)
        }
    }
}

/// The three bytes of pixel `k` of a tightly packed RGB24 buffer.
pub open spec fn rgb_of(buf: Seq<u8>, k: int) -> (u8, u8, u8) {
    (buf[3 * k], buf[3 * k + 1], buf[3 * k + 2])
}

pub(crate) proof fn lemma_pixel_index(k: int, x: int, y: int, width: int, height: int)
    requires
        0 <= x < width,
        0 <= y < height,
        k == y * width + x,
    ensures
        0 <= k < width * height,
        k % width == x,
        k / width == y,
        k + 1 == if x + 1 == width { (y + 1) * width } else { y * width + x + 1 },
{
    assert(0 <= k < width * height) by (nonlinear_arith)
        requires
            0 <= x < width,
            0 <= y < height,
            k == y * width + x,
    ;
    assert((y + 1) * width == y * width + width) by (nonlinear_arith);
    vstd::arithmetic::div_mod::lemma_fundamental_div_mod_converse(k, width, y, x);
}


/// Demosaic a Bayer frame of 8-bit, wider or MIPI-packed samples into a
/// tightly packed RGB24 buffer by bilinear interpolation over 8-bit
/// samples; bytes of `dst` past `width * height` pixels are left as they
/// were.
pub fn demosaic_bilinear_generic(
    dst: &mut [u8],
    data: &[u8],
    stride: usize,
    width: usize,
    height: usize,
    pattern: BayerPattern,
    bit_depth: u8,
    bytes_per_sample: usize,
)
    requires
        sampling_ok(data@.len() as int, stride as int, bytes_per_sample as int, bit_depth, width as int, height as int),
        width * height * 3 <= old(dst)@.len(),
    ensures
        final(dst)@.len() == old(dst)@.len(),
        forall|k: int|
            0 <= k < width * height ==> #[trigger] rgb_of(final(dst)@, k) == bilinear_rgb(
                data@,
                stride as int,
                bytes_per_sample as int,
                bit_depth,
                pattern,
                width as int,
                height as int,
                k % (width as int),
                k / (width as int),
            ),
        forall|p: int|
            width * height * 3 <= p < old(dst)@.len() ==> #[trigger] final(dst)@[p] == old(dst)@[p],
{
    let ghost w = width as int;
    let ghost h = height as int;
    let n = dst.len();
    let mut y: usize = 0;
    let mut k: usize = 0;
    while y < height
        invariant
            y <= height,
            n == old(dst)@.len(),
            w == width,
            h == height,
            k == y * w,
            sampling_ok(data@.len() as int, stride as int, bytes_per_sample as int, bit_depth, w, h),
            w * h * 3 <= old(dst)@.len(),
            dst@.len() == old(dst)@.len(),
            forall|j: int|
                0 <= j < k ==> #[trigger] rgb_of(dst@, j) == bilinear_rgb(
                    data@,
                    stride as int,
                    bytes_per_sample as int,
                    bit_depth,
                    pattern,
                    w,
                    h,
                    j % w,
                    j / w,
                ),
            forall|p: int| 3 * k <= p < old(dst)@.len() ==> #[trigger] dst@[p] == old(dst)@[p],
        decreases height - y,
    {
        let mut x: usize = 0;
        while x < width
            invariant
                x <= width,
                y < height,
                n == old(dst)@.len(),
                w == width,
                h == height,
                k == y * w + x,
                sampling_ok(data@.len() as int, stride as int, bytes_per_sample as int, bit_depth, w, h),
                w * h * 3 <= old(dst)@.len(),
                dst@.len() == old(dst)@.len(),
                forall|j: int|
                    0 <= j < k ==> #[trigger] rgb_of(dst@, j) == bilinear_rgb(
                        data@,
                        stride as int,
                        bytes_per_sample as int,
                        bit_depth,
                        pattern,
                        w,
                        h,
                        j % w,
                        j / w,
                    ),
                forall|p: int| 3 * k <= p < old(dst)@.len() ==> #[trigger] dst@[p] == old(dst)@[p],
            decreases width - x,
        {
            proof {
                lemma_pixel_index(k as int, x as int, y as int, w, h);
            }
            let (r, g, b) = bilinear_site(data, stride, bytes_per_sample, bit_depth, pattern, width, height, x, y);
            let ghost before = dst@;
            dst[3 * k] = r;
            dst[3 * k + 1] = g;
            dst[3 * k + 2] = b;
            proof {
                assert forall|j: int| 0 <= j < k + 1 implies #[trigger] rgb_of(dst@, j) == bilinear_rgb(
                    data@,
                    stride as int,
                    bytes_per_sample as int,
                    bit_depth,
                    pattern,
                    w,
                    h,
                    j % w,
                    j / w,
                ) by {
                    if j < k {
                        assert(rgb_of(before, j) == rgb_of(dst@, j));
                    }
                }
            }
            k = k + 1;
            x = x + 1;
        }
        assert(k == (y + 1) * w) by (nonlinear_arith)
            requires
                k == y * w + w,
        ;
        y = y + 1;
    }
    assert(k == w * h) by (nonlinear_arith)
        requires
            k == h * w,
    ;
}

/// Sample `(x, y)` of a frame of 16-bit words whose rows are `stride_px`
/// words apart.
pub open spec fn word(words: Seq<u16>, stride_px: int, x: int, y: int) -> int {
    words[y * stride_px + x] as int
}

/// A 16-bit value shifted right by `shift` and truncated to 8 bits.
pub open spec fn to8(v: int, shift: u16) -> u8 {
    ((v as u16) >> shift) as u8
}

/// RGB of an interior site before shifting, from its own sample `c`, the
/// means of its four edge (`cross`) and four corner (`diag`) neighbours,
/// of its left and right (`lr`) and of its upper and lower (`ud`)
/// neighbours; `ey` and `ex` tell whether the row and column are even.
pub open spec fn interior_channels(
    pattern: BayerPattern,
    ey: bool,
    ex: bool,
    c: int,
    cross: int,
    diag: int,
    lr: int,
    ud: int,
) -> (int, int, int) {
    match pattern {
        BayerPattern::BGGR => if ey && ex {
            (diag, cross, c)
        } else if ey {
            (ud, c, lr)
        } else if ex {
            (lr, c, ud)
        } else {
            (c, cross, diag)
        },
        BayerPattern::RGGB => if ey && ex {
            (c, cross, diag)
        } else if ey {
            (lr, c, ud)
        } else if ex {
            (ud, c, lr)
        } else {
            (diag, cross, c)
        },
        BayerPattern::GBRG => if ey && ex {
            (ud, c, lr)
        } else if ey {
            (diag, cross, c)
        } else if ex {
            (c, cross, diag)
        } else {
            (lr, c, ud)
        },
        BayerPattern::GRBG => if ey && ex {
            (lr, c, ud)
        } else if ey {
            (c, cross, diag)
        } else if ex {
            (diag, cross, c)
        } else {
            (ud, c, lr)
        },
    }
}

/// RGB of site `(x, y)` of a frame of 16-bit samples: a border site is
/// its own sample as grey; an interior site is interpolated over the
/// 16-bit samples and then shifted down to 8 bits.
pub open spec fn words_rgb(
    words: Seq<u16>,
    stride_px: int,
    width: int,
    height: int,
    pattern: BayerPattern,
    bit_depth: u8,
    x: int,
    y: int,
) -> (u8, u8, u8) {
    let shift = depth_shift(bit_depth);
    let c = word(words, stride_px, x, y);
    if x == 0 || y == 0 || x == width - 1 || y == height - 1 {
        (to8(c, shift), to8(c, shift), to8(c, shift))
    } else {
        let l = word(words, stride_px, x - 1, y);
        let r = word(words, stride_px, x + 1, y);
        let u = word(words, stride_px, x, y - 1);
        let d = word(words, stride_px, x, y + 1);
        let ul = word(words, stride_px, x - 1, y - 1);
        let ur = word(words, stride_px, x + 1, y - 1);
        let dl = word(words, stride_px, x - 1, y + 1);
        let dr = word(words, stride_px, x + 1, y + 1);
        let ch = interior_channels(
            pattern,
            y % 2 == 0,
            x % 2 == 0,
            c,
            (l + r + u + d) / 4,
            (ul + ur + dl + dr) / 4,
            (l + r) / 2,
            (u + d) / 2,
        );
        (to8(ch.0, shift), to8(ch.1, shift), to8(ch.2, shift))
    }
}

proof fn lemma_word_index(x: int, y: int, stride_px: int, height: int)
    by (nonlinear_arith)
    requires
        0 <= x < stride_px,
        0 <= y < height,
    ensures
        0 <= y * stride_px + x < stride_px * height,
{
    assert(y * stride_px + stride_px <= height * stride_px);
}

fn read_word(words: &[u16], stride_px: usize, x: usize, y: usize, height: usize) -> (r: u32)
    requires
        x < stride_px,
        y < height,
        stride_px * height <= words@.len(),
    ensures
        r == word(words@, stride_px as int, x as int, y as int),
        r <= 0xffff,
{
    let n = words.len();
    proof {
        lemma_word_index(x as int, y as int, stride_px as int, height as int);
    }
    words[y * stride_px + x] as u32
}

fn shift_to_u8(v: u32, shift: u16) -> (r: u8)
    requires
        v <= 0xffff,
        shift < 16,
    ensures
        r == to8(v as int, shift),
{
    ((v as u16) >> shift) as u8
}

fn words_site(
    words: &[u16],
    stride_px: usize,
    width: usize,
    height: usize,
    pattern: BayerPattern,
    shift: u16,
    x: usize,
    y: usize,
) -> (r: (u8, u8, u8))
    requires
        x < width,
        y < height,
        width <= stride_px,
        stride_px * height <= words@.len(),
        shift < 16,
    ensures
        ({
            let t = |v: int| to8(v, shift);
            let c = word(words@, stride_px as int, x as int, y as int);
            let (xi, yi, w, h) = (x as int, y as int, width as int, height as int);
            let sp = stride_px as int;
            if xi == 0 || yi == 0 || xi == w - 1 || yi == h - 1 {
                r == (t(c), t(c), t(c))
            } else {
                let l = word(words@, sp, xi - 1, yi);
                let rr = word(words@, sp, xi + 1, yi);
                let u = word(words@, sp, xi, yi - 1);
                let d = word(words@, sp, xi, yi + 1);
                let ul = word(words@, sp, xi - 1, yi - 1);
                let ur = word(words@, sp, xi + 1, yi - 1);
                let dl = word(words@, sp, xi - 1, yi + 1);
                let dr = word(words@, sp, xi + 1, yi + 1);
                let ch = interior_channels(
                    pattern,
                    yi % 2 == 0,
                    xi % 2 == 0,
                    c,
                    (l + rr + u + d) / 4,
                    (ul + ur + dl + dr) / 4,
                    (l + rr) / 2,
                    (u + d) / 2,
                );
                r == (t(ch.0), t(ch.1), t(ch.2))
            }
        }),
{
    let c = read_word(words, stride_px, x, y, height);
    if x == 0 || y == 0 || x == width - 1 || y == height - 1 {
        let v = shift_to_u8(c, shift);
        return (v, v, v);
    }
    let l = read_word(words, stride_px, x - 1, y, height);
    let r = read_word(words, stride_px, x + 1, y, height);
    let u = read_word(words, stride_px, x, y - 1, height);
    let d = read_word(words, stride_px, x, y + 1, height);
    let ul = read_word(words, stride_px, x - 1, y - 1, height);
    let ur = read_word(words, stride_px, x + 1, y - 1, height);
    let dl = read_word(words, stride_px, x - 1, y + 1, height);
    let dr = read_word(words, stride_px, x + 1, y + 1, height);
    let cross = (l + r + u + d) / 4;
    let diag = (ul + ur + dl + dr) / 4;
    let lr = (l + r) / 2;
    let ud = (u + d) / 2;
    let ey = y % 2 == 0;
    let ex = x % 2 == 0;
    let (r16, g16, b16): (u32, u32, u32) = match pattern {
        BayerPattern::BGGR => if ey && ex {
            (diag, cross, c)
        } else if ey {
            (ud, c, lr)
        } else if ex {
            (lr, c, ud)
        } else {
            (c, cross, diag)
        },
        BayerPattern::RGGB => if ey && ex {
            (c, cross, diag)
        } else if ey {
            (lr, c, ud)
        } else if ex {
            (ud, c, lr)
        } else {
            (diag, cross, c)
        },
        BayerPattern::GBRG => if ey && ex {
            (ud, c, lr)
        } else if ey {
            (diag, cross, c)
        } else if ex {
            (c, cross, diag)
        } else {
            (lr, c, ud)
        },
        BayerPattern::GRBG => if ey && ex {
            (lr, c, ud)
        } else if ey {
            (c, cross, diag)
        } else if ex {
            (diag, cross, c)
        } else {
            (ud, c, lr)
        },
    };
    (shift_to_u8(r16, shift), shift_to_u8(g16, shift), shift_to_u8(b16, shift))
}


/// Demosaic a frame of 16-bit samples, rows `stride_px` words apart, into
/// a tightly packed RGB24 buffer: border sites become grey, interior sites
/// are interpolated over 16-bit samples; bytes of `dst` past
/// `width * height` pixels are left as they were.
pub fn demosaic_words(
    dst: &mut [u8],
    words: &[u16],
    stride_px: usize,
    width: usize,
    height: usize,
    pattern: BayerPattern,
    bit_depth: u8,
)
    requires
        width >= 1,
        height >= 2,
        bit_depth < 24,
        width <= stride_px,
        stride_px * height <= words@.len(),
        width * height * 3 <= old(dst)@.len(),
    ensures
        final(dst)@.len() == old(dst)@.len(),
        forall|k: int|
            0 <= k < width * height ==> #[trigger] rgb_of(final(dst)@, k) == words_rgb(
                words@,
                stride_px as int,
                width as int,
                height as int,
                pattern,
                bit_depth,
                k % (width as int),
                k / (width as int),
            ),
        forall|p: int|
            width * height * 3 <= p < old(dst)@.len() ==> #[trigger] final(dst)@[p] == old(dst)@[p],
{
    let ghost w = width as int;
    let ghost h = height as int;
    let shift: u16 = if bit_depth > 8 {
        (bit_depth - 8) as u16
    } else {
        0
    };
    let n = dst.len();
    let mut y: usize = 0;
    let mut k: usize = 0;
    while y < height
        invariant
            y <= height,
            n == old(dst)@.len(),
            w == width,
            h == height,
            k == y * w,
            shift == depth_shift(bit_depth),
            shift < 16,
            width <= stride_px,
            stride_px * height <= words@.len(),
            w * h * 3 <= old(dst)@.len(),
            dst@.len() == old(dst)@.len(),
            forall|j: int|
                0 <= j < k ==> #[trigger] rgb_of(dst@, j) == words_rgb(
                    words@,
                    stride_px as int,
                    w,
                    h,
                    pattern,
                    bit_depth,
                    j % w,
                    j / w,
                ),
            forall|p: int| 3 * k <= p < old(dst)@.len() ==> #[trigger] dst@[p] == old(dst)@[p],
        decreases height - y,
    {
        let mut x: usize = 0;
        while x < width
            invariant
                x <= width,
                y < height,
                n == old(dst)@.len(),
                w == width,
                h == height,
                k == y * w + x,
                shift == depth_shift(bit_depth),
                shift < 16,
                width <= stride_px,
                stride_px * height <= words@.len(),
                w * h * 3 <= old(dst)@.len(),
                dst@.len() == old(dst)@.len(),
                forall|j: int|
                    0 <= j < k ==> #[trigger] rgb_of(dst@, j) == words_rgb(
                        words@,
                        stride_px as int,
                        w,
                        h,
                        pattern,
                        bit_depth,
                        j % w,
                        j / w,
                    ),
                forall|p: int| 3 * k <= p < old(dst)@.len() ==> #[trigger] dst@[p] == old(dst)@[p],
            decreases width - x,
        {
            proof {
                lemma_pixel_index(k as int, x as int, y as int, w, h);
            }
            let (r, g, b) = words_site(words, stride_px, width, height, pattern, shift, x, y);
            let ghost before = dst@;
            dst[3 * k] = r;
            dst[3 * k + 1] = g;
            dst[3 * k + 2] = b;
            proof {
                assert forall|j: int| 0 <= j < k + 1 implies #[trigger] rgb_of(dst@, j) == words_rgb(
                    words@,
                    stride_px as int,
                    w,
                    h,
                    pattern,
                    bit_depth,
                    j % w,
                    j / w,
                ) by {
                    if j < k {
                        assert(rgb_of(before, j) == rgb_of(dst@, j));
                    }
                }
            }
            k = k + 1;
            x = x + 1;
        }
        assert(k == (y + 1) * w) by (nonlinear_arith)
            requires
                k == y * w + w,
        ;
        y = y + 1;
    }
    assert(k == w * h) by (nonlinear_arith)
        requires
            k == h * w,
    ;
}

/// 16-bit value of bytes `i` and `i + 1` of `data`, little-endian.
pub open spec fn le16(data: Seq<u8>, i: int) -> u16 {
    (data[i] as u16) | ((data[i + 1] as u16) << 8u16)
}

/// The first `n` little-endian 16-bit words of `data`.
pub open spec fn le_word_seq(data: Seq<u8>, n: int) -> Seq<u16> {
    Seq::new(n as nat, |i: int| le16(data, 2 * i))
}

/// The first `n` little-endian 16-bit words of `data`.
pub fn le_words(data: &[u8], n: usize) -> (r: Vec<u16>)
    requires
        2 * n <= data@.len(),
    ensures
        r@ == le_word_seq(data@, n as int),
{
    let len = data.len();
    let mut out: Vec<u16> = Vec::new();
    let mut i: usize = 0;
    while i < n
        invariant
            i <= n,
            len == data@.len(),
            2 * n <= data@.len(),
            out@.len() == i,
            forall|j: int| 0 <= j < i ==> #[trigger] out@[j] == le16(data@, 2 * j),
        decreases n - i,
    {
        out.push((data[2 * i] as u16) | ((data[2 * i + 1] as u16) << 8u16));
        i = i + 1;
    }
    out
}

/// Demosaic a frame of little-endian 16-bit samples held as bytes, rows
/// `stride_px` samples apart, into a tightly packed RGB24 buffer (see
/// [`demosaic_words`]).
pub fn demosaic_bilinear_u16_le(
    dst: &mut [u8],
    data: &[u8],
    stride_px: usize,
    width: usize,
    height: usize,
    pattern: BayerPattern,
    bit_depth: u8,
)
    requires
        width >= 1,
        height >= 2,
        bit_depth < 24,
        width <= stride_px,
        2 * (stride_px * height) <= data@.len(),
        width * height * 3 <= old(dst)@.len(),
    ensures
        final(dst)@.len() == old(dst)@.len(),
        forall|k: int|
            0 <= k < width * height ==> #[trigger] rgb_of(final(dst)@, k) == words_rgb(
                le_word_seq(data@, stride_px * height),
                stride_px as int,
                width as int,
                height as int,
                pattern,
                bit_depth,
                k % (width as int),
                k / (width as int),
            ),
        forall|p: int|
            width * height * 3 <= p < old(dst)@.len() ==> #[trigger] final(dst)@[p] == old(dst)@[p],
{
    let len = data.len();
    let words = le_words(data, stride_px * height);
    demosaic_words(dst, words.as_slice(), stride_px, width, height, pattern, bit_depth);
}


/// Sample `(x, y)` of a MIPI-packed frame unpacked to 16 bits: row `y` is
/// the `stride` bytes from byte `y * stride`; depths other than 10 and 12
/// unpack to 0.
pub open spec fn mipi_word(data: Seq<u8>, stride: int, bit_depth: u8, x: int, y: int) -> u16 {
    let row = data.subrange(y * stride, y * stride + stride);
    if bit_depth == 10 {
        raw10_at(row, 0, x)
    } else if bit_depth == 12 {
        raw12_at(row, 0, x)
    } else {
        0
    }
}

proof fn lemma_row_span(y: int, stride: int, height: int)
    by (nonlinear_arith)
    requires
        0 <= y < height,
        0 <= stride,
    ensures
        0 <= y * stride,
        y * stride + stride <= stride * height,
{
    assert(y * stride + stride <= height * stride);
}

/// Unpack a MIPI-packed frame, rows `stride` bytes apart, into `width`
/// 16-bit samples per row, row after row.
pub fn unpack_mipi_packed_to_u16_le(
    dst: &mut [u16],
    data: &[u8],
    stride: usize,
    width: usize,
    height: usize,
    bit_depth: u8,
)
    requires
        width >= 1,
        old(dst)@.len() == width * height,
        stride * height <= data@.len(),
    ensures
        final(dst)@.len() == old(dst)@.len(),
        forall|k: int|
            0 <= k < width * height ==> #[trigger] final(dst)@[k] == mipi_word(
                data@,
                stride as int,
                bit_depth,
                k % (width as int),
                k / (width as int),
            ),
{
    let ghost w = width as int;
    let ghost h = height as int;
    let len = data.len();
    let mut y: usize = 0;
    let mut k: usize = 0;
    while y < height
        invariant
            y <= height,
            w == width,
            h == height,
            w >= 1,
            k == y * w,
            len == data@.len(),
            stride * height <= data@.len(),
            dst@.len() == w * h,
            forall|j: int|
                0 <= j < k ==> #[trigger] dst@[j] == mipi_word(data@, stride as int, bit_depth, j % w, j / w),
        decreases height - y,
    {
        proof {
            lemma_row_span(y as int, stride as int, height as int);
        }
        let start = y * stride;
        let row = slice_subrange(data, start, start + stride);
        let mut x: usize = 0;
        while x < width
            invariant
                x <= width,
                y < height,
                w == width,
                h == height,
                k == y * w + x,
                start == y * stride,
                row@ == data@.subrange(y * stride, y * stride + stride),
                dst@.len() == w * h,
                forall|j: int|
                    0 <= j < k ==> #[trigger] dst@[j] == mipi_word(data@, stride as int, bit_depth, j % w, j / w),
            decreases width - x,
        {
            proof {
                lemma_pixel_index(k as int, x as int, y as int, w, h);
            }
            let v: u16 = if bit_depth == 10 {
                raw10_sample(row, 0, x)
            } else if bit_depth == 12 {
                raw12_sample(row, 0, x)
            } else {
                0
            };
            dst[k] = v;
            k = k + 1;
            x = x + 1;
        }
        assert(k == (y + 1) * w) by (nonlinear_arith)
            requires
                k == y * w + w,
        ;
        y = y + 1;
    }
    assert(k == w * h) by (nonlinear_arith)
        requires
            k == h * w,
    ;
}

/// RGB of site `(x, y)` of a Bayer frame as the demosaicer computes it:
/// two-byte samples whose row pitch is a whole number of samples go
/// through the 16-bit interpolation, other samples through the 8-bit one.
pub open spec fn plain_bayer_rgb(
    data: Seq<u8>,
    stride: int,
    bps: int,
    bit_depth: u8,
    pattern: BayerPattern,
    width: int,
    height: int,
    x: int,
    y: int,
) -> (u8, u8, u8) {
    if bps == 2 && stride % 2 == 0 {
        words_rgb(le_word_seq(data, (stride / 2) * height), stride / 2, width, height, pattern, bit_depth, x, y)
    } else {
        bilinear_rgb(data, stride, bps, bit_depth, pattern, width, height, x, y)
    }
}

proof fn lemma_sample_clamps(data: Seq<u8>, stride: int, bps: int, bit_depth: u8, x: int, y: int, width: int, height: int)
    requires
        0 <= x <= width,
        0 <= y <= height,
        width > 0,
        height > 0,
    ensures
        sample_spec(data, stride, bps, bit_depth, x, y, width, height) == sample_spec(
            data,
            stride,
            bps,
            bit_depth,
            clamped(x, width),
            clamped(y, height),
            width,
            height,
        ),
        0 <= clamped(x, width) < width,
        0 <= clamped(y, height) < height,
{
    reveal(sample_spec);
}

/// A flat mosaic demosaics to flat grey, borders included: where every
/// site of a frame samples to the same 8-bit value `g`, the 8-bit
/// interpolation makes every pixel `(g, g, g)`, whatever the pattern.
pub proof fn lemma_flat_mosaic_is_grey(
    data: Seq<u8>,
    stride: int,
    bps: int,
    bit_depth: u8,
    pattern: BayerPattern,
    width: int,
    height: int,
    g: u8,
)
    requires
        width > 0,
        height > 0,
        forall|sx: int, sy: int|
            0 <= sx < width && 0 <= sy < height ==> #[trigger] sample_spec(data, stride, bps, bit_depth, sx, sy, width, height)
                == g,
    ensures
        forall|x: int, y: int|
            0 <= x < width && 0 <= y < height ==> #[trigger] bilinear_rgb(data, stride, bps, bit_depth, pattern, width, height, x, y)
                == (g, g, g),
{
    assert forall|x: int, y: int| 0 <= x < width && 0 <= y < height implies #[trigger] bilinear_rgb(
        data,
        stride,
        bps,
        bit_depth,
        pattern,
        width,
        height,
        x,
        y,
    ) == (g, g, g) by {
        let xl = if x > 0 { x - 1 } else { 0 };
        let yu = if y > 0 { y - 1 } else { 0 };
        lemma_sample_clamps(data, stride, bps, bit_depth, x + 1, y, width, height);
        lemma_sample_clamps(data, stride, bps, bit_depth, x, y + 1, width, height);
        lemma_sample_clamps(data, stride, bps, bit_depth, x + 1, y + 1, width, height);
        lemma_sample_clamps(data, stride, bps, bit_depth, xl, y + 1, width, height);
        lemma_sample_clamps(data, stride, bps, bit_depth, x + 1, yu, width, height);
        lemma_sample_clamps(data, stride, bps, bit_depth, x, y, width, height);
        lemma_sample_clamps(data, stride, bps, bit_depth, xl, y, width, height);
        lemma_sample_clamps(data, stride, bps, bit_depth, x, yu, width, height);
        lemma_sample_clamps(data, stride, bps, bit_depth, xl, yu, width, height);
        assert(sample_spec(data, stride, bps, bit_depth, clamped(x + 1, width), clamped(y, height), width, height) == g);
        assert(sample_spec(data, stride, bps, bit_depth, clamped(x, width), clamped(y + 1, height), width, height) == g);
        assert(sample_spec(data, stride, bps, bit_depth, clamped(x + 1, width), clamped(y + 1, height), width, height) == g);
        assert(sample_spec(data, stride, bps, bit_depth, clamped(xl, width), clamped(y + 1, height), width, height) == g);
        assert(sample_spec(data, stride, bps, bit_depth, clamped(x + 1, width), clamped(yu, height), width, height) == g);
        assert(sample_spec(data, stride, bps, bit_depth, clamped(x, width), clamped(y, height), width, height) == g);
        assert(sample_spec(data, stride, bps, bit_depth, clamped(xl, width), clamped(y, height), width, height) == g);
        assert(sample_spec(data, stride, bps, bit_depth, clamped(x, width), clamped(yu, height), width, height) == g);
        assert(sample_spec(data, stride, bps, bit_depth, clamped(xl, width), clamped(yu, height), width, height) == g);
    }
}

/// A flat mosaic of 16-bit samples demosaics to flat grey, borders
/// included: where every site of a frame holds the same value `v`, the
/// 16-bit interpolation makes every pixel `v` shifted down to 8 bits in
/// each channel, whatever the pattern.
pub proof fn lemma_flat_words_are_grey(
    words: Seq<u16>,
    stride_px: int,
    width: int,
    height: int,
    pattern: BayerPattern,
    bit_depth: u8,
    v: u16,
)
    requires
        forall|sx: int, sy: int| 0 <= sx < width && 0 <= sy < height ==> #[trigger] word(words, stride_px, sx, sy) == v,
    ensures
        forall|x: int, y: int|
            0 <= x < width && 0 <= y < height ==> #[trigger] words_rgb(words, stride_px, width, height, pattern, bit_depth, x, y)
                == (to8(v as int, depth_shift(bit_depth)), to8(v as int, depth_shift(bit_depth)), to8(
                v as int,
                depth_shift(bit_depth),
            )),
{
    assert forall|x: int, y: int| 0 <= x < width && 0 <= y < height implies #[trigger] words_rgb(
        words,
        stride_px,
        width,
        height,
        pattern,
        bit_depth,
        x,
        y,
    ) == (to8(v as int, depth_shift(bit_depth)), to8(v as int, depth_shift(bit_depth)), to8(v as int, depth_shift(bit_depth))) by {
        if !(x == 0 || y == 0 || x == width - 1 || y == height - 1) {
            assert(word(words, stride_px, x - 1, y) == v);
            assert(word(words, stride_px, x + 1, y) == v);
            assert(word(words, stride_px, x, y - 1) == v);
            assert(word(words, stride_px, x, y + 1) == v);
            assert(word(words, stride_px, x - 1, y - 1) == v);
            assert(word(words, stride_px, x + 1, y - 1) == v);
            assert(word(words, stride_px, x - 1, y + 1) == v);
            assert(word(words, stride_px, x + 1, y + 1) == v);
        }
        assert(word(words, stride_px, x, y) == v);
    }
}

/// The raw value the mosaic stores for site `(x, y)`: a byte for one-byte
/// samples, a little-endian word for wider ones, an unpacked RAW10 or
/// RAW12 sample for packed rows (0 for other packed depths).
pub open spec fn raw_sample(data: Seq<u8>, stride: int, bps: int, bit_depth: u8, x: int, y: int) -> int {
    if bps == 1 {
        data[y * stride + x] as int
    } else if bps > 0 {
        le16(data, y * stride + x * bps) as int
    } else if bit_depth == 10 {
        raw10_at(data, y * stride, x) as int
    } else if bit_depth == 12 {
        raw12_at(data, y * stride, x) as int
    } else {
        0
    }
}

/// The grey level a raw value `v` demosaics to: one-byte samples as they
/// are, wider ones shifted down to 8 bits.
pub open spec fn flat_grey(v: int, bps: int, bit_depth: u8) -> u8 {
    if bps == 1 {
        v as u8
    } else {
        ((v as u16) >> depth_shift(bit_depth)) as u8
    }
}

/// A flat mosaic demosaics to a flat grey image, borders included, in
/// every encoding and for every pattern: where every site of a frame
/// stores the same raw value `v`, every pixel the demosaic produces is
/// `v` brought to 8 bits in all three channels.
pub proof fn lemma_flat_frame_is_grey(
    data: Seq<u8>,
    stride: int,
    bps: int,
    bit_depth: u8,
    pattern: BayerPattern,
    width: int,
    height: int,
    v: int,
)
    requires
        sampling_ok(data.len() as int, stride, bps, bit_depth, width, height),
        0 <= v < 0x10000,
        forall|x: int, y: int| 0 <= x < width && 0 <= y < height ==> #[trigger] raw_sample(data, stride, bps, bit_depth, x, y) == v,
    ensures
        forall|x: int, y: int|
            0 <= x < width && 0 <= y < height ==> #[trigger] plain_bayer_rgb(data, stride, bps, bit_depth, pattern, width, height, x, y)
                == (flat_grey(v, bps, bit_depth), flat_grey(v, bps, bit_depth), flat_grey(v, bps, bit_depth)),
{
    let g = flat_grey(v, bps, bit_depth);
    if bps == 2 && stride % 2 == 0 {
        let sp = stride / 2;
        let words = le_word_seq(data, sp * height);
        assert forall|sx: int, sy: int| 0 <= sx < width && 0 <= sy < height implies #[trigger] word(words, sp, sx, sy)
            == v as u16 by {
            assert(raw_sample(data, stride, bps, bit_depth, sx, sy) == v);
            assert(sy * sp + sx < sp * height) by (nonlinear_arith)
                requires
                    0 <= sx < width,
                    0 <= sy < height,
                    width <= sp,
            ;
            assert(0 <= sy * sp) by (nonlinear_arith)
                requires
                    0 <= sy,
                    0 <= sp,
            ;
            assert(2 * (sy * sp + sx) == sy * stride + sx * 2) by (nonlinear_arith)
                requires
                    stride == 2 * sp,
            ;
        }
        lemma_flat_words_are_grey(words, sp, width, height, pattern, bit_depth, v as u16);
    } else {
        assert forall|sx: int, sy: int| 0 <= sx < width && 0 <= sy < height implies #[trigger] sample_spec(
            data,
            stride,
            bps,
            bit_depth,
            sx,
            sy,
            width,
            height,
        ) == g by {
            reveal(sample_spec);
            assert(raw_sample(data, stride, bps, bit_depth, sx, sy) == v);
            assert(clamped(sx, width) == sx && clamped(sy, height) == sy);
            assert(plain_offset(stride, bps, sx, sy, width, height) == sy * stride + sx * bps);
            if bps == 1 {
                assert(sample_spec(data, stride, bps, bit_depth, sx, sy, width, height) == data[sy * stride + sx]);
            } else if bps > 0 {
                let w16 = le16(data, sy * stride + sx * bps);
                assert(v as u16 == w16);
            } else if bit_depth == 10 {
                assert(v as u16 == raw10_at(data, sy * stride, sx));
            } else if bit_depth == 12 {
                assert(v as u16 == raw12_at(data, sy * stride, sx));
            } else {
                assert(v == 0);
                assert(((0u16) >> depth_shift(bit_depth)) as u8 == 0u8) by (bit_vector);
            }
        }
        lemma_flat_mosaic_is_grey(data, stride, bps, bit_depth, pattern, width, height, g);
    }
}

/// Demosaic a Bayer frame into a tightly packed RGB24 buffer: two-byte
/// samples whose row pitch is a whole number of samples by 16-bit
/// interpolation, others by 8-bit interpolation.  Bytes of `dst` past
/// `width * height` pixels are left as they were.
pub fn demosaic_bilinear_to_rg24(
    dst: &mut [u8],
    data: &[u8],
    stride: usize,
    width: usize,
    height: usize,
    pattern: BayerPattern,
    bit_depth: u8,
    bytes_per_sample: usize,
)
    requires
        sampling_ok(data@.len() as int, stride as int, bytes_per_sample as int, bit_depth, width as int, height as int),
        bytes_per_sample == 2 && stride % 2 == 0 ==> height >= 2,
        width * height * 3 <= old(dst)@.len(),
    ensures
        final(dst)@.len() == old(dst)@.len(),
        forall|k: int|
            0 <= k < width * height ==> #[trigger] rgb_of(final(dst)@, k) == plain_bayer_rgb(
                data@,
                stride as int,
                bytes_per_sample as int,
                bit_depth,
                pattern,
                width as int,
                height as int,
                k % (width as int),
                k / (width as int),
            ),
        forall|p: int|
            width * height * 3 <= p < old(dst)@.len() ==> #[trigger] final(dst)@[p] == old(dst)@[p],
{
    if bytes_per_sample == 2 && stride % 2 == 0 {
        let stride_px = stride / 2;
        assert(2 * (stride_px * height) == stride * height) by (nonlinear_arith)
            requires
                stride == 2 * stride_px,
        ;
        demosaic_bilinear_u16_le(dst, data, stride_px, width, height, pattern, bit_depth);
    } else {
        demosaic_bilinear_generic(dst, data, stride, width, height, pattern, bit_depth, bytes_per_sample);
    }
}


/// What the Bayer decoder can find wrong with its input or output buffer.
#[derive(Debug, Clone, Copy, PartialEq, Eq, Structural)]
pub enum BayerFailure {
    MissingPlane,
    TooSmall,
    StrideOverflow,
    PlaneTooShort,
    OutputOverflow,
    DstTooShort,
}

/// The message the Bayer decoder gives for each failure.
pub open spec fn bayer_failure_text(f: BayerFailure) -> &'static str {
    match f {
        BayerFailure::MissingPlane => "bayer frame missing plane",
        BayerFailure::TooSmall => "bayer frame too small",
        BayerFailure::StrideOverflow => "bayer stride overflow",
        BayerFailure::PlaneTooShort => "bayer plane buffer too short",
        BayerFailure::OutputOverflow => "bayer output overflow",
        BayerFailure::DstTooShort => "bayer dst buffer too short",
    }
}

fn bayer_failure_message(f: BayerFailure) -> (r: String)
    ensures
        r@ == bayer_failure_text(f)@,
{
    let text: &str = match f {
        BayerFailure::MissingPlane => "bayer frame missing plane",
        BayerFailure::TooSmall => "bayer frame too small",
        BayerFailure::StrideOverflow => "bayer stride overflow",
        BayerFailure::PlaneTooShort => "bayer plane buffer too short",
        BayerFailure::OutputOverflow => "bayer output overflow",
        BayerFailure::DstTooShort => "bayer dst buffer too short",
    };
    text.to_owned()
}

/// The row pitch the Bayer decoder reads with: the plane's, widened to at
/// least the smallest pitch of a row.
pub open spec fn bayer_stride(info: BayerInfo, plane_stride: int, width: int) -> int {
    let m = min_stride_spec(width, info.bit_depth, info.bytes_per_sample as int);
    if plane_stride >= m {
        plane_stride
    } else {
        m
    }
}

/// The first thing wrong with a Bayer decode whose input code matched.
pub open spec fn bayer_failure(info: BayerInfo, meta: FrameMeta, planes: Seq<Plane>, dst_len: int) -> Option<BayerFailure> {
    let w = meta.format.resolution.width@ as int;
    let h = meta.format.resolution.height@ as int;
    if planes.len() == 0 {
        Some(BayerFailure::MissingPlane)
    } else if w < 2 || h < 2 {
        Some(BayerFailure::TooSmall)
    } else {
        let stride = bayer_stride(info, planes[0].pitch() as int, w);
        if stride * h > usize::MAX {
            Some(BayerFailure::StrideOverflow)
        } else if planes[0].bytes().len() < stride * h {
            Some(BayerFailure::PlaneTooShort)
        } else if w * 3 * h > usize::MAX {
            Some(BayerFailure::OutputOverflow)
        } else if dst_len < w * 3 * h {
            Some(BayerFailure::DstTooShort)
        } else {
            None
        }
    }
}

/// RGB of site `(x, y)` of a Bayer frame read with row pitch `stride`:
/// MIPI-packed samples are unpacked to 16 bits and interpolated as such.
pub open spec fn bayer_rgb(info: BayerInfo, data: Seq<u8>, stride: int, width: int, height: int, x: int, y: int) -> (u8, u8, u8) {
    if info.bytes_per_sample == 0 {
        let words = Seq::new(
            (width * height) as nat,
            |k: int| mipi_word(data, stride, info.bit_depth, k % width, k / width),
        );
        words_rgb(words, width, width, height, info.pattern, info.bit_depth, x, y)
    } else {
        plain_bayer_rgb(data, stride, info.bytes_per_sample as int, info.bit_depth, info.pattern, width, height, x, y)
    }
}

proof fn lemma_words_rgb_same_samples(
    a: Seq<u16>,
    sa: int,
    b: Seq<u16>,
    sb: int,
    width: int,
    height: int,
    pattern: BayerPattern,
    bit_depth: u8,
    x: int,
    y: int,
)
    requires
        0 <= x < width,
        0 <= y < height,
        forall|sx: int, sy: int|
            0 <= sx < width && 0 <= sy < height ==> #[trigger] word(a, sa, sx, sy) == word(b, sb, sx, sy),
    ensures
        words_rgb(a, sa, width, height, pattern, bit_depth, x, y) == words_rgb(b, sb, width, height, pattern, bit_depth, x, y),
{
    assert(word(a, sa, x, y) == word(b, sb, x, y));
    if !(x == 0 || y == 0 || x == width - 1 || y == height - 1) {
        assert(word(a, sa, x - 1, y) == word(b, sb, x - 1, y));
        assert(word(a, sa, x + 1, y) == word(b, sb, x + 1, y));
        assert(word(a, sa, x, y - 1) == word(b, sb, x, y - 1));
        assert(word(a, sa, x, y + 1) == word(b, sb, x, y + 1));
        assert(word(a, sa, x - 1, y - 1) == word(b, sb, x - 1, y - 1));
        assert(word(a, sa, x + 1, y - 1) == word(b, sb, x + 1, y - 1));
        assert(word(a, sa, x - 1, y + 1) == word(b, sb, x - 1, y + 1));
        assert(word(a, sa, x + 1, y + 1) == word(b, sb, x + 1, y + 1));
    }
}

/// MIPI-packed and 16-bit frames holding the same samples decode alike:
/// where each sample a packed frame unpacks to equals the little-endian
/// word of a two-byte frame at the same site (rows a whole number of
/// words apart, each at least a row of samples), of the same pattern and
/// depth, every pixel the Bayer decode makes of the two is the same.
pub proof fn lemma_packed_and_unpacked_decode_alike(
    packed_info: BayerInfo,
    packed: Seq<u8>,
    packed_stride: int,
    unpacked_info: BayerInfo,
    unpacked: Seq<u8>,
    unpacked_stride: int,
    width: int,
    height: int,
)
    requires
        packed_info.bytes_per_sample == 0,
        unpacked_info.bytes_per_sample == 2,
        packed_info.pattern == unpacked_info.pattern,
        packed_info.bit_depth == unpacked_info.bit_depth,
        unpacked_stride % 2 == 0,
        unpacked_stride >= 2 * width,
        forall|x: int, y: int|
            0 <= x < width && 0 <= y < height ==> #[trigger] mipi_word(packed, packed_stride, packed_info.bit_depth, x, y)
                == le16(unpacked, y * unpacked_stride + 2 * x),
    ensures
        forall|x: int, y: int|
            0 <= x < width && 0 <= y < height ==> #[trigger] bayer_rgb(packed_info, packed, packed_stride, width, height, x, y)
                == bayer_rgb(unpacked_info, unpacked, unpacked_stride, width, height, x, y),
{
    let bd = packed_info.bit_depth;
    let sp = unpacked_stride / 2;
    let pw = Seq::new(
        (width * height) as nat,
        |k: int| mipi_word(packed, packed_stride, bd, k % width, k / width),
    );
    let uw = le_word_seq(unpacked, sp * height);
    assert forall|sx: int, sy: int| 0 <= sx < width && 0 <= sy < height implies #[trigger] word(pw, width, sx, sy)
        == word(uw, sp, sx, sy) by {
        let k = sy * width + sx;
        lemma_pixel_index(k, sx, sy, width, height);
        assert(mipi_word(packed, packed_stride, bd, sx, sy) == le16(unpacked, sy * unpacked_stride + 2 * sx));
        assert(sy * sp + sx < sp * height) by (nonlinear_arith)
            requires
                0 <= sx < width,
                0 <= sy < height,
                width <= sp,
        ;
        assert(0 <= sy * sp) by (nonlinear_arith)
            requires
                0 <= sy,
                0 <= sp,
        ;
        assert(2 * (sy * sp + sx) == sy * unpacked_stride + 2 * sx) by (nonlinear_arith)
            requires
                unpacked_stride == 2 * sp,
        ;
    }
    assert forall|x: int, y: int| 0 <= x < width && 0 <= y < height implies #[trigger] bayer_rgb(
        packed_info,
        packed,
        packed_stride,
        width,
        height,
        x,
        y,
    ) == bayer_rgb(unpacked_info, unpacked, unpacked_stride, width, height, x, y) by {
        lemma_words_rgb_same_samples(pw, width, uw, sp, width, height, packed_info.pattern, bd, x, y);
    }
}

/// The sample the Bayer decode reads for site `(x, y)` of a frame read
/// with row pitch `stride`: a MIPI-packed sample unpacked to 16 bits, or
/// the raw value a plain frame stores.
pub open spec fn bayer_sample(info: BayerInfo, data: Seq<u8>, stride: int, x: int, y: int) -> int {
    if info.bytes_per_sample == 0 {
        mipi_word(data, stride, info.bit_depth, x, y) as int
    } else {
        raw_sample(data, stride, info.bytes_per_sample as int, info.bit_depth, x, y)
    }
}

/// A flat Bayer frame decodes to flat grey, borders included, for every
/// pattern, encoding and plane pitch: where every site of a frame that its
/// plane holds (at the pitch the decode reads with) stores the same value
/// `v`, every pixel is `v` brought to 8 bits in all three channels.
pub proof fn lemma_flat_bayer_frame_is_grey(
    info: BayerInfo,
    data: Seq<u8>,
    pitch: int,
    width: int,
    height: int,
    v: int,
)
    requires
        width >= 1,
        height >= 1,
        info.bit_depth < 24,
        width * info.bytes_per_sample <= usize::MAX,
        bayer_stride(info, pitch, width) * height <= data.len(),
        0 <= v < 0x10000,
        forall|x: int, y: int|
            0 <= x < width && 0 <= y < height ==> #[trigger] bayer_sample(info, data, bayer_stride(info, pitch, width), x, y)
                == v,
    ensures
        forall|x: int, y: int|
            0 <= x < width && 0 <= y < height ==> #[trigger] bayer_rgb(info, data, bayer_stride(info, pitch, width), width, height, x, y)
                == (
                flat_grey(v, info.bytes_per_sample as int, info.bit_depth),
                flat_grey(v, info.bytes_per_sample as int, info.bit_depth),
                flat_grey(v, info.bytes_per_sample as int, info.bit_depth),
            ),
{
    let stride = bayer_stride(info, pitch, width);
    let bps = info.bytes_per_sample as int;
    if bps == 0 {
        let words = Seq::new(
            (width * height) as nat,
            |k: int| mipi_word(data, stride, info.bit_depth, k % width, k / width),
        );
        assert forall|sx: int, sy: int| 0 <= sx < width && 0 <= sy < height implies #[trigger] word(words, width, sx, sy)
            == v as u16 by {
            lemma_pixel_index(sy * width + sx, sx, sy, width, height);
            assert(bayer_sample(info, data, stride, sx, sy) == v);
        }
        lemma_flat_words_are_grey(words, width, width, height, info.pattern, info.bit_depth, v as u16);
    } else {
        assert(sampling_ok(data.len() as int, stride, bps, info.bit_depth, width, height));
        assert forall|x: int, y: int| 0 <= x < width && 0 <= y < height implies #[trigger] raw_sample(
            data,
            stride,
            bps,
            info.bit_depth,
            x,
            y,
        ) == v by {
            assert(bayer_sample(info, data, stride, x, y) == v);
        }
        lemma_flat_frame_is_grey(data, stride, bps, info.bit_depth, info.pattern, width, height, v);
    }
}

/// Demosaic the first plane of a Bayer frame of code `input` into a
/// caller-provided tightly packed RGB24 buffer.
///
/// The frame must be at least 2 by 2; its plane must hold `height` rows at
/// the read pitch; `dst` must hold `width * 3 * height` bytes, of which
/// exactly those are written.
pub fn decode_bayer_into(
    info: BayerInfo,
    input: FourCc,
    meta: &FrameMeta,
    planes: &Vec<Plane>,
    dst: &mut [u8],
) -> (r: Result<FrameMeta, CodecError>)
    requires
        meta.format.code == input && planes@.len() > 0 && info.bytes_per_sample == 0
            ==> min_stride_spec(meta.format.resolution.width@ as int, info.bit_depth, 0) <= usize::MAX,
        meta.format.code == input && bayer_failure(info, *meta, planes@, old(dst)@.len() as int) is None
            ==> info.bit_depth < 24,
    ensures
        meta.format.code != input ==> (r matches Err(CodecError::FormatMismatch { expected, actual })
            && expected == input && actual == meta.format.code) && final(dst)@ == old(dst)@,
        meta.format.code == input && bayer_failure(info, *meta, planes@, old(dst)@.len() as int) is Some
            ==> (r matches Err(CodecError::Codec(s)) && s@ == bayer_failure_text(
            bayer_failure(info, *meta, planes@, old(dst)@.len() as int)->Some_0,
        )@) && final(dst)@ == old(dst)@,
        meta.format.code == input && bayer_failure(info, *meta, planes@, old(dst)@.len() as int) is None
            ==> ({
            let w = meta.format.resolution.width@ as int;
            let h = meta.format.resolution.height@ as int;
            let stride = bayer_stride(info, planes@[0].pitch() as int, w);
            &&& r matches Ok(m) && decoded_meta(m, *meta, FourCc::RG24)
            &&& final(dst)@.len() == old(dst)@.len()
            &&& forall|k: int|
                0 <= k < w * h ==> #[trigger] rgb_of(final(dst)@, k) == bayer_rgb(
                    info,
                    planes@[0].bytes(),
                    stride,
                    w,
                    h,
                    k % w,
                    k / w,
                )
            &&& forall|p: int|
                w * 3 * h <= p < old(dst)@.len() ==> #[trigger] final(dst)@[p] == old(dst)@[p]
        }),
{
    if meta.format.code != input {
        return Err(CodecError::FormatMismatch { expected: input, actual: meta.format.code });
    }
    if planes.len() == 0 {
        return Err(CodecError::Codec(bayer_failure_message(BayerFailure::MissingPlane)));
    }
    let plane = planes[0];
    let width = meta.format.resolution.width.get() as usize;
    let height = meta.format.resolution.height.get() as usize;
    if width < 2 || height < 2 {
        return Err(CodecError::Codec(bayer_failure_message(BayerFailure::TooSmall)));
    }
    let min = min_stride(width, info.bit_depth, info.bytes_per_sample);
    let stride = if plane.stride() >= min {
        plane.stride()
    } else {
        min
    };
    let required = match stride.checked_mul(height) {
        Some(n) => n,
        None => return Err(CodecError::Codec(bayer_failure_message(BayerFailure::StrideOverflow))),
    };
    let data = plane.data();
    if data.len() < required {
        return Err(CodecError::Codec(bayer_failure_message(BayerFailure::PlaneTooShort)));
    }
    let row_bytes = match width.checked_mul(3) {
        Some(n) => n,
        None => {
            assert(width * 3 * height > usize::MAX) by (nonlinear_arith)
                requires
                    width * 3 > usize::MAX,
                    height >= 2,
            ;
            return Err(CodecError::Codec(bayer_failure_message(BayerFailure::OutputOverflow)));
        },
    };
    let out_len = match row_bytes.checked_mul(height) {
        Some(n) => n,
        None => return Err(CodecError::Codec(bayer_failure_message(BayerFailure::OutputOverflow))),
    };
    if dst.len() < out_len {
        return Err(CodecError::Codec(bayer_failure_message(BayerFailure::DstTooShort)));
    }
    assert(width * height * 3 == out_len) by (nonlinear_arith)
        requires
            out_len == row_bytes * height,
            row_bytes == width * 3,
    ;
    if info.bytes_per_sample == 0 {
        let mut packed: Vec<u16> = vec![0u16; width * height];
        unpack_mipi_packed_to_u16_le(packed.as_mut_slice(), data, stride, width, height, info.bit_depth);
        assert(width * height <= width * height);
        demosaic_words(dst, packed.as_slice(), width, width, height, info.pattern, info.bit_depth);
        proof {
            let words = Seq::new(
                (width * height) as nat,
                |k: int| mipi_word(data@, stride as int, info.bit_depth, k % (width as int), k / (width as int)),
            );
            assert(packed@ =~= words);
        }
    } else {
        proof {
            if width * info.bytes_per_sample > usize::MAX {
                assert(stride * height > usize::MAX) by (nonlinear_arith)
                    requires
                        stride == usize::MAX,
                        height >= 2,
                ;
            }
        }
        demosaic_bilinear_to_rg24(dst, data, stride, width, height, info.pattern, info.bit_depth, info.bytes_per_sample);
    }
    Ok(FrameMeta::new(MediaFormat::new(FourCc::RG24, meta.format.resolution, meta.format.color), meta.timestamp))
}

} // verus!
