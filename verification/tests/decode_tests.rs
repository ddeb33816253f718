use styx::bayer::{
    bayer_info, decode_bayer_into, demosaic_bilinear_to_rg24, demosaic_bilinear_u16_le, min_stride, sample_at, unpack_raw10_row, unpack_raw12_row,
    BayerPattern,
};
use styx::format::{ColorSpace, FourCc, MediaFormat, Resolution};
use styx::meta::FrameMeta;
use styx::raw::{decode_packed_into, CodecError, CodecKind, PackedConversion};
use styx::rows::Plane;
use styx::yuv::{
    decode_i420_into, decode_nv_into, decode_planar_into, planar_to_rgb_fallback,
    decode_nv12_into, decode_yuyv_into, decode_yuyv_luma_into, map_colorspace,
    normalized_packed_stride, nv_to_rgb_fallback, yuv_to_rgb, yuyv_to_rgb_fallback,
    YuvMatrixKind, YuvRangeKind,
};

fn pack_raw10_4px(p0: u16, p1: u16, p2: u16, p3: u16) -> [u8; 5] {
    let b0 = (p0 & 0xff) as u8;
    let b1 = (p1 & 0xff) as u8;
    let b2 = (p2 & 0xff) as u8;
    let b3 = (p3 & 0xff) as u8;
    let b4 = ((p0 >> 8) as u8 & 0x03)
        | (((p1 >> 8) as u8 & 0x03) << 2)
        | (((p2 >> 8) as u8 & 0x03) << 4)
        | (((p3 >> 8) as u8 & 0x03) << 6);
    [b0, b1, b2, b3, b4]
}

#[test]
fn raw10_packed_sampling_matches_values() {
    let row = pack_raw10_4px(0x000, 0x155, 0x2aa, 0x3ff);
    let stride = row.len();
    let data = row.as_slice();
    let w = 4;
    let h = 1;
    assert_eq!(sample_at(data, stride, 0, 10, 0, 0, w, h), 0x00);
    assert_eq!(sample_at(data, stride, 0, 10, 1, 0, w, h), 0x55);
    assert_eq!(sample_at(data, stride, 0, 10, 2, 0, w, h), 0xaa);
    assert_eq!(sample_at(data, stride, 0, 10, 3, 0, w, h), 0xff);
}

#[test]
fn raw10_unpack_matches_values() {
    let row = pack_raw10_4px(0x000, 0x155, 0x2aa, 0x3ff);
    let mut out = [0u16; 4];
    unpack_raw10_row(&mut out, &row, 4);
    assert_eq!(u16::from_le(out[0]), 0x000);
    assert_eq!(u16::from_le(out[1]), 0x155);
    assert_eq!(u16::from_le(out[2]), 0x2aa);
    assert_eq!(u16::from_le(out[3]), 0x3ff);
}

#[test]
fn packed_raw10_decode_matches_unpacked() {
    let w = 4usize;
    let h = 4usize;
    let res = Resolution::new(w as u32, h as u32).unwrap();

    let mut raw = vec![0u16; w * h];
    for y in 0..h {
        for x in 0..w {
            raw[y * w + x] = (((y * w + x) * 77) & 0x3ff) as u16;
        }
    }

    let packed_stride = 5usize;
    let mut packed = Vec::with_capacity(packed_stride * h);
    for y in 0..h {
        let row = &raw[y * w..(y + 1) * w];
        packed.extend_from_slice(&pack_raw10_4px(row[0], row[1], row[2], row[3]));
    }

    let unpacked_stride = w * 2;
    let mut unpacked = vec![0u8; unpacked_stride * h];
    for y in 0..h {
        for x in 0..w {
            let v = raw[y * w + x].to_le_bytes();
            let o = y * unpacked_stride + x * 2;
            unpacked[o] = v[0];
            unpacked[o + 1] = v[1];
        }
    }

    let packed_fourcc = FourCc::new(*b"pRAA");
    let unpacked_fourcc = FourCc::new(*b"RG10");
    let packed_info = bayer_info(packed_fourcc).unwrap();
    let unpacked_info = bayer_info(unpacked_fourcc).unwrap();

    let packed_meta = FrameMeta::new(MediaFormat::new(packed_fourcc, res, ColorSpace::Unknown), 0);
    let unpacked_meta =
        FrameMeta::new(MediaFormat::new(unpacked_fourcc, res, ColorSpace::Unknown), 0);
    let mut a = vec![0u8; w * h * 3];
    let mut b = vec![0u8; w * h * 3];
    decode_bayer_into(
        packed_info,
        packed_fourcc,
        &packed_meta,
        &vec![Plane::new(&packed, packed_stride)],
        &mut a,
    )
    .unwrap();
    decode_bayer_into(
        unpacked_info,
        unpacked_fourcc,
        &unpacked_meta,
        &vec![Plane::new(&unpacked, unpacked_stride)],
        &mut b,
    )
    .unwrap();
    assert_eq!(a.len(), 4 * 4 * 3);
    assert_eq!(a, b);
}

#[test]
fn bayer_info_describes_codes() {
    let info = bayer_info(FourCc::new(*b"RGGB")).unwrap();
    assert_eq!(info.pattern, BayerPattern::RGGB);
    assert_eq!(info.bit_depth, 8);
    assert_eq!(info.bytes_per_sample, 1);
    let info = bayer_info(FourCc::new(*b"pBCC")).unwrap();
    assert_eq!(info.pattern, BayerPattern::BGGR);
    assert_eq!(info.bit_depth, 12);
    assert_eq!(info.bytes_per_sample, 0);
    assert!(bayer_info(FourCc::RG24).is_none());
}

#[test]
fn min_stride_covers_packed_rows() {
    assert_eq!(min_stride(5, 10, 0), 10);
    assert_eq!(min_stride(5, 12, 0), 9);
    assert_eq!(min_stride(5, 8, 1), 5);
    assert_eq!(min_stride(5, 16, 2), 10);
    assert_eq!(min_stride(5, 14, 0), 0);
}

#[test]
fn bayer_decode_rejects_small_frames_and_short_planes() {
    let code = FourCc::new(*b"RGGB");
    let info = bayer_info(code).unwrap();
    let tiny = FrameMeta::new(MediaFormat::srgb(code, 1, 4).unwrap(), 0);
    let data = [0u8; 16];
    let mut dst = vec![0u8; 48];
    match decode_bayer_into(info, code, &tiny, &vec![Plane::new(&data, 4)], &mut dst) {
        Err(CodecError::Codec(msg)) => assert_eq!(msg, "bayer frame too small"),
        other => panic!("unexpected {other:?}"),
    }
    let meta = FrameMeta::new(MediaFormat::srgb(code, 4, 4).unwrap(), 0);
    match decode_bayer_into(info, code, &meta, &vec![Plane::new(&data[..8], 4)], &mut dst) {
        Err(CodecError::Codec(msg)) => assert_eq!(msg, "bayer plane buffer too short"),
        other => panic!("unexpected {other:?}"),
    }
    match decode_bayer_into(info, FourCc::RG24, &meta, &vec![Plane::new(&data, 4)], &mut dst) {
        Err(CodecError::FormatMismatch { expected, actual }) => {
            assert_eq!(expected, FourCc::RG24);
            assert_eq!(actual, code);
        }
        other => panic!("unexpected {other:?}"),
    }
}

#[test]
fn bayer_8bit_rggb_interpolates_each_site() {
    // 2x2 RGGB: R=200 G=100 / G=50 B=20.
    let code = FourCc::new(*b"RGGB");
    let info = bayer_info(code).unwrap();
    let meta = FrameMeta::new(MediaFormat::srgb(code, 2, 2).unwrap(), 0);
    let data = [200u8, 100, 50, 20];
    let mut dst = vec![0u8; 12];
    decode_bayer_into(info, code, &meta, &vec![Plane::new(&data, 2)], &mut dst).unwrap();
    // Red site: own red; green the mean of its edge neighbours and blue the
    // mean of its corner neighbours, both clamped onto the frame.
    assert_eq!(&dst[0..3], &[200u8, ((100 + 50 + 200 + 200) / 4) as u8, ((20 + 50 + 100 + 200) / 4) as u8]);
    // Blue site: own blue; the others from clamped neighbours likewise.
    assert_eq!(&dst[9..12], &[((20 + 50 + 100 + 200) / 4) as u8, ((20 + 20 + 50 + 100) / 4) as u8, 20u8]);
}

#[test]
fn decode_into_matches_process() {
    let res = Resolution::new(2, 1).unwrap();
    let format = MediaFormat::new(FourCc::new(*b"BGR3"), res, ColorSpace::Srgb);
    let src = [1u8, 2, 3, 4, 5, 6]; // BGR BGR
    let meta = FrameMeta::new(format, 123);
    let planes = vec![Plane::new(&src, 6)];

    let mut processed = vec![0u8; 6];
    decode_packed_into(PackedConversion::BgrToRgb, FourCc::BGR3, FourCc::RG24, &meta, &planes, &mut processed)
        .unwrap();
    let mut out = vec![0u8; 6];
    let m = decode_packed_into(PackedConversion::BgrToRgb, FourCc::BGR3, FourCc::RG24, &meta, &planes, &mut out)
        .unwrap();

    assert_eq!(processed, out);
    assert_eq!(out, vec![3, 2, 1, 6, 5, 4]);
    assert_eq!(m.format.code, FourCc::RG24);
    assert_eq!(m.timestamp, 123);
}

#[test]
fn mono8_expands_to_rgb24() {
    let res = Resolution::new(5, 3).unwrap();
    let height = res.height.get() as usize;
    let width = res.width.get() as usize;
    let stride = 8usize;
    let mut src = vec![0u8; stride * height];
    for y in 0..height {
        for x in 0..width {
            src[y * stride + x] = (y as u8) * 10 + (x as u8);
        }
    }
    let meta = FrameMeta::new(MediaFormat::new(FourCc::new(*b"R8  "), res, ColorSpace::Unknown), 0);
    let mut data = vec![0u8; width * height * 3];
    let out = decode_packed_into(
        PackedConversion::Mono8ToRgb,
        FourCc::R8,
        FourCc::RG24,
        &meta,
        &vec![Plane::new(&src, stride)],
        &mut data,
    )
    .unwrap();
    assert_eq!(out.format.code, FourCc::new(*b"RG24"));
    assert_eq!(data.len(), width * height * 3);
    for y in 0..height {
        for x in 0..width {
            let g = (y as u8) * 10 + (x as u8);
            let o = (y * width + x) * 3;
            assert_eq!(&data[o..o + 3], &[g, g, g]);
        }
    }
}

#[test]
fn mono16_expands_to_rgb24() {
    let res = Resolution::new(5, 3).unwrap();
    let height = res.height.get() as usize;
    let width = res.width.get() as usize;
    let stride = 12usize;

    let mut src = vec![0u8; stride * height];
    for y in 0..height {
        for x in 0..width {
            let v = (((y * width + x) * 257) as u16).to_le_bytes();
            let o = y * stride + x * 2;
            src[o] = v[0];
            src[o + 1] = v[1];
        }
    }
    let meta = FrameMeta::new(MediaFormat::new(FourCc::new(*b"R16 "), res, ColorSpace::Unknown), 0);
    let mut data = vec![0u8; width * height * 3];
    let out = decode_packed_into(
        PackedConversion::Mono16ToRgb,
        FourCc::R16,
        FourCc::RG24,
        &meta,
        &vec![Plane::new(&src, stride)],
        &mut data,
    )
    .unwrap();
    assert_eq!(out.format.code, FourCc::new(*b"RG24"));
    assert_eq!(data.len(), width * height * 3);
    for y in 0..height {
        for x in 0..width {
            let v = ((y * width + x) * 257) as u16;
            let g = (v >> 8) as u8;
            let o = (y * width + x) * 3;
            assert_eq!(&data[o..o + 3], &[g, g, g]);
        }
    }
}

#[test]
fn packed_decode_reports_each_failure() {
    let meta = FrameMeta::new(MediaFormat::srgb(FourCc::BGR3, 2, 2).unwrap(), 0);
    let src = [0u8; 12];
    let mut dst = vec![0u8; 12];
    match decode_packed_into(PackedConversion::BgrToRgb, FourCc::BGR3, FourCc::RG24, &meta, &Vec::new(), &mut dst) {
        Err(CodecError::Codec(msg)) => assert_eq!(msg, "bgr frame missing plane"),
        other => panic!("unexpected {other:?}"),
    }
    match decode_packed_into(PackedConversion::BgrToRgb, FourCc::BGR3, FourCc::RG24, &meta, &vec![Plane::new(&src[..6], 6)], &mut dst) {
        Err(CodecError::Codec(msg)) => assert_eq!(msg, "bgr plane buffer too short"),
        other => panic!("unexpected {other:?}"),
    }
    let mut short = vec![0u8; 11];
    match decode_packed_into(PackedConversion::BgrToRgb, FourCc::BGR3, FourCc::RG24, &meta, &vec![Plane::new(&src, 6)], &mut short) {
        Err(CodecError::Codec(msg)) => assert_eq!(msg, "bgr dst buffer too short"),
        other => panic!("unexpected {other:?}"),
    }
}

fn yuyv_meta(res: Resolution) -> FrameMeta {
    FrameMeta::new(MediaFormat::new(FourCc::new(*b"YUYV"), res, ColorSpace::Srgb), 1)
}

#[test]
fn yuyv_decode_into_matches_process_rgb() {
    let res = Resolution::new(2, 1).unwrap();
    let bytes = [10u8, 128, 20, 128];
    let meta = yuyv_meta(res);
    let planes = vec![Plane::new(&bytes, 4)];

    let mut processed = vec![0u8; 2 * 3];
    decode_yuyv_into(&meta, &planes, &mut processed).unwrap();
    let mut out = vec![0u8; 2 * 3];
    decode_yuyv_into(&meta, &planes, &mut out).unwrap();
    assert_eq!(processed, out);
}

#[test]
fn yuyv_decode_into_matches_process_luma() {
    let res = Resolution::new(2, 1).unwrap();
    let bytes = [10u8, 128, 20, 128];
    let meta = yuyv_meta(res);
    let planes = vec![Plane::new(&bytes, 4)];

    let mut processed = vec![0u8; 2];
    decode_yuyv_luma_into(&meta, &planes, &mut processed).unwrap();
    let mut out = vec![0u8; 2];
    let m = decode_yuyv_luma_into(&meta, &planes, &mut out).unwrap();
    assert_eq!(processed, out);
    assert_eq!(out, vec![10, 20]);
    assert_eq!(m.format.code, FourCc::GREY);
}

#[test]
fn yuyv_padded_rows_use_integer_conversion() {
    // Rows padded to 8 bytes: the conversion library takes only tight rows.
    let res = Resolution::new(2, 2).unwrap();
    let bytes = [10u8, 128, 20, 128, 0, 0, 0, 0, 235, 128, 16, 128, 0, 0, 0, 0];
    let meta = FrameMeta::new(MediaFormat::new(FourCc::YUYV, res, ColorSpace::Bt709), 1);
    let mut out = vec![0u8; 12];
    decode_yuyv_into(&meta, &vec![Plane::new(&bytes, 8)], &mut out).unwrap();
    let mut expected = vec![0u8; 12];
    yuyv_to_rgb_fallback(&bytes, 8, 2, 2, ColorSpace::Bt709, &mut expected);
    assert_eq!(out, expected);
    assert_eq!(&out[6..9], &[255, 255, 255]);
    assert_eq!(&out[9..12], &[0, 0, 0]);
}

#[test]
fn yuv_to_rgb_matches_fixed_point_formula() {
    assert_eq!(yuv_to_rgb(16, 128, 128, ColorSpace::Bt709), (0, 0, 0));
    assert_eq!(yuv_to_rgb(235, 128, 128, ColorSpace::Bt709), (255, 255, 255));
    assert_eq!(yuv_to_rgb(128, 128, 128, ColorSpace::Srgb), (128, 128, 128));
    // Limited range mid grey: (298 * 112 + 128) >> 8 = 130.
    assert_eq!(yuv_to_rgb(128, 128, 128, ColorSpace::Bt709), (130, 130, 130));
    // Pure red chroma on full range: r = (256*76 + 359*127 + 128) >> 8 = 254.
    assert_eq!(yuv_to_rgb(76, 85, 255, ColorSpace::Srgb).0, 254);
    assert_eq!(map_colorspace(ColorSpace::Srgb), (YuvRangeKind::Full, YuvMatrixKind::Bt601));
    assert_eq!(map_colorspace(ColorSpace::Unknown), (YuvRangeKind::Limited, YuvMatrixKind::Bt709));
}

#[test]
fn normalized_stride_prefers_tight_rows() {
    let data = [0u8; 16];
    assert_eq!(normalized_packed_stride(&Plane::new(&data, 8), 4, 2, 2), 8);
    assert_eq!(normalized_packed_stride(&Plane::new(&data, 12), 2, 4, 2), 4);
    assert_eq!(normalized_packed_stride(&Plane::new(&data, 2), 3, 2, 2), 6);
}

#[test]
fn nv12_fallback_shares_chroma_per_block() {
    let y = [16u8, 235, 16, 235];
    let uv = [128u8, 128];
    let mut rgb = vec![0u8; 12];
    nv_to_rgb_fallback(&y, 2, &uv, 2, 2, 2, 2, 2, true, ColorSpace::Bt709, false, &mut rgb);
    assert_eq!(rgb, vec![0, 0, 0, 255, 255, 255, 0, 0, 0, 255, 255, 255]);
}

#[test]
fn nv12_decode_validates_planes() {
    let meta = FrameMeta::new(MediaFormat::srgb(FourCc::NV12, 2, 2).unwrap(), 4);
    let data = [16u8; 6];
    let mut dst = vec![0u8; 12];
    let m = decode_nv12_into(&meta, &vec![Plane::new(&data, 2)], &mut dst).unwrap();
    assert_eq!(m.format.code, FourCc::RG24);
    assert_eq!(m.timestamp, 4);
    match decode_nv12_into(&meta, &vec![Plane::new(&data[..5], 2)], &mut dst) {
        Err(CodecError::Codec(msg)) => assert_eq!(msg, "nv12 packed plane buffer too short"),
        other => panic!("unexpected {other:?}"),
    }
    match decode_nv12_into(&meta, &Vec::new(), &mut dst) {
        Err(CodecError::Codec(msg)) => assert_eq!(msg, "nv12 frame missing planes"),
        other => panic!("unexpected {other:?}"),
    }
    let mut short = vec![0u8; 11];
    match decode_nv12_into(&meta, &vec![Plane::new(&data, 2)], &mut short) {
        Err(CodecError::Codec(msg)) => assert_eq!(msg, "nv12 dst buffer too short"),
        other => panic!("unexpected {other:?}"),
    }
}

#[test]
fn codec_kind_names_are_stable() {
    assert_eq!(CodecKind::Encoder.as_str(), "encoder");
    assert_eq!(CodecKind::Decoder.as_str(), "decoder");
}

#[test]
fn nv12_through_semi_planar_decoder_uses_integer_conversion() {
    // NV12 is not one of the codes handed to the conversion library.
    let meta = FrameMeta::new(MediaFormat::new(FourCc::NV12, Resolution::new(2, 2).unwrap(), ColorSpace::Bt709), 3);
    let y = [16u8, 235, 235, 16];
    let uv = [128u8, 128];
    let planes = vec![Plane::new(&y, 2), Plane::new(&uv, 2)];
    let mut dst = vec![9u8; 14];
    let m = decode_nv_into(FourCc::NV12, true, 2, 2, &meta, &planes, &mut dst).unwrap();
    assert_eq!(m.format.code, FourCc::RG24);
    assert_eq!(&dst[..12], &[0, 0, 0, 255, 255, 255, 255, 255, 255, 0, 0, 0]);
    assert_eq!(&dst[12..], &[9, 9]);
    match decode_nv_into(FourCc::NV12, true, 2, 2, &meta, &vec![Plane::new(&y, 2)], &mut dst) {
        Err(CodecError::Codec(msg)) => assert_eq!(msg, "nv frame missing planes"),
        other => panic!("unexpected {other:?}"),
    }
}

#[test]
fn planar_decoder_uses_integer_conversion_for_uncommon_subsampling() {
    // 4:1:1 style subsampling (4 by 1) is not one the library converts.
    let code = FourCc::new(*b"Y41P");
    let meta = FrameMeta::new(MediaFormat::new(code, Resolution::new(4, 1).unwrap(), ColorSpace::Srgb), 0);
    let y = [0u8, 64, 128, 255];
    let u = [128u8];
    let v = [128u8];
    let planes = vec![Plane::new(&y, 4), Plane::new(&u, 1), Plane::new(&v, 1)];
    let mut dst = vec![0u8; 12];
    decode_planar_into(code, true, 4, 1, &meta, &planes, &mut dst).unwrap();
    assert_eq!(dst, vec![0, 0, 0, 64, 64, 64, 128, 128, 128, 255, 255, 255]);
    let mut again = vec![0u8; 12];
    planar_to_rgb_fallback(&y, 4, &u, 1, &v, 1, 4, 1, 4, 1, ColorSpace::Srgb, &mut again);
    assert_eq!(again, dst);
}

#[test]
fn i420_decode_reports_its_failures() {
    let meta = FrameMeta::new(MediaFormat::srgb(FourCc::I420, 2, 2).unwrap(), 0);
    let y = [0u8; 4];
    let c = [128u8; 1];
    let mut dst = vec![0u8; 12];
    match decode_i420_into(&meta, &vec![Plane::new(&y, 2), Plane::new(&c, 1)], &mut dst) {
        Err(CodecError::Codec(msg)) => assert_eq!(msg, "i420 frame missing planes"),
        other => panic!("unexpected {other:?}"),
    }
    match decode_i420_into(&meta, &vec![Plane::new(&y[..3], 2), Plane::new(&c, 1), Plane::new(&c, 1)], &mut dst) {
        Err(CodecError::Codec(msg)) => assert_eq!(msg, "i420 plane buffer too short"),
        other => panic!("unexpected {other:?}"),
    }
    let m = decode_i420_into(&meta, &vec![Plane::new(&y, 2), Plane::new(&c, 1), Plane::new(&c, 1)], &mut dst).unwrap();
    assert_eq!(m.format.code, FourCc::RG24);
}

#[test]
fn raw12_unpack_splits_shared_low_nibbles() {
    let row = [0x12u8, 0x34, 0xab, 0x56];
    let mut out = [7u16; 4];
    unpack_raw12_row(&mut out, &row, 3);
    assert_eq!(out, [0xb12, 0xa34, 0x056, 7]);
}

#[test]
fn gbrg_even_site_takes_blue_from_left_and_right() {
    // 5x5 GBRG mosaic of 8-bit samples stored as 16-bit LE words; at the
    // even/even site (2, 2) red is the mean of the samples above and below,
    // blue the mean of those left and right.
    let mut words = [0u16; 25];
    for (i, w) in words.iter_mut().enumerate() {
        *w = (i as u16) * 3;
    }
    words[2 * 5 + 1] = 40; // left
    words[2 * 5 + 3] = 60; // right
    words[1 * 5 + 2] = 10; // up
    words[3 * 5 + 2] = 30; // down
    words[2 * 5 + 2] = 77; // centre (green)
    let mut data = Vec::new();
    for w in words.iter() {
        data.extend_from_slice(&w.to_le_bytes());
    }
    let mut dst = vec![0u8; 5 * 5 * 3];
    demosaic_bilinear_u16_le(&mut dst, &data, 5, 5, 5, BayerPattern::GBRG, 8);
    let px = (2 * 5 + 2) * 3;
    assert_eq!(&dst[px..px + 3], &[20, 77, 50]);
}

#[test]
fn flat_mosaic_demosaics_to_flat_grey() {
    for pattern in [BayerPattern::RGGB, BayerPattern::BGGR, BayerPattern::GRBG, BayerPattern::GBRG] {
        let data = vec![100u8; 5 * 4];
        let mut dst = vec![0u8; 5 * 4 * 3 + 2];
        demosaic_bilinear_to_rg24(&mut dst, &data, 5, 5, 4, pattern, 8, 1);
        assert!(dst[..60].iter().all(|&b| b == 100));
        assert_eq!(&dst[60..], &[0, 0]);

        let mut words = Vec::new();
        for _ in 0..(5 * 4) {
            words.extend_from_slice(&512u16.to_le_bytes());
        }
        let mut dst16 = vec![0u8; 5 * 4 * 3];
        demosaic_bilinear_to_rg24(&mut dst16, &words, 10, 5, 4, pattern, 10, 2);
        assert!(dst16.iter().all(|&b| b == 128));
    }
}

#[test]
fn nv12_with_padded_chroma_rows_is_converted_with_integer_math() {
    // The conversion library takes only chroma rows without padding, so a
    // chroma pitch of 4 for a frame two pixels wide leaves it to the
    // integer conversion.
    let meta = FrameMeta::new(MediaFormat::new(FourCc::NV12, Resolution::new(2, 2).unwrap(), ColorSpace::Bt709), 0);
    let y = [40u8, 90, 150, 220];
    let uv = [100u8, 170, 0, 0];
    let planes = vec![Plane::new(&y, 2), Plane::new(&uv, 4)];
    let mut dst = vec![0u8; 12];
    decode_nv12_into(&meta, &planes, &mut dst).unwrap();
    let mut want = Vec::new();
    for &l in y.iter() {
        let (r, g, b) = yuv_to_rgb(l as i32, 100, 170, ColorSpace::Bt709);
        want.extend_from_slice(&[r, g, b]);
    }
    assert_eq!(dst, want);

    // NV21 stores each pair V then U.
    let meta21 = FrameMeta::new(MediaFormat::new(FourCc::NV21, Resolution::new(2, 2).unwrap(), ColorSpace::Bt709), 0);
    let vu = [170u8, 100, 0, 0];
    let planes21 = vec![Plane::new(&y, 2), Plane::new(&vu, 4)];
    let mut dst21 = vec![0u8; 12];
    decode_nv_into(FourCc::NV21, false, 2, 2, &meta21, &planes21, &mut dst21).unwrap();
    assert_eq!(dst21, want);
}

#[test]
fn demosaic_of_packed_rows_interpolates_in_eight_bits() {
    // Handed packed rows directly, the demosaic brings each sample to 8
    // bits before interpolating; 16-bit words are interpolated first.  At
    // the blue site (1, 1) of this 3x3 RGGB mosaic red is the mean of the
    // corners 3, 3, 5, 5: 0, 0, 1, 1 -> 0 against 4 -> 1.  (The Bayer
    // decoder unpacks packed rows to words first, so it decodes the two
    // frames alike.)
    let rows = [[3u16, 0, 3], [0, 0, 0], [5, 0, 5]];
    let mut packed = Vec::new();
    let mut words = Vec::new();
    for r in rows.iter() {
        packed.extend_from_slice(&pack_raw10_4px(r[0], r[1], r[2], 0));
        for &v in r.iter() {
            words.extend_from_slice(&v.to_le_bytes());
        }
    }
    let mut from_packed = vec![0u8; 27];
    demosaic_bilinear_to_rg24(&mut from_packed, &packed, 5, 3, 3, BayerPattern::RGGB, 10, 0);
    let mut from_words = vec![0u8; 27];
    demosaic_bilinear_to_rg24(&mut from_words, &words, 6, 3, 3, BayerPattern::RGGB, 10, 2);
    let centre = (1 * 3 + 1) * 3;
    assert_eq!(from_packed[centre], 0);
    assert_eq!(from_words[centre], 1);
}

#[test]
fn flat_packed_raw10_mosaic_is_flat_grey() {
    let mut packed = Vec::new();
    for _ in 0..4 {
        packed.extend_from_slice(&pack_raw10_4px(700, 700, 700, 700));
    }
    let mut dst = vec![0u8; 4 * 4 * 3];
    demosaic_bilinear_to_rg24(&mut dst, &packed, 5, 4, 4, BayerPattern::GBRG, 10, 0);
    assert!(dst.iter().all(|&b| b == (700u16 >> 2) as u8));
}

#[test]
fn flat_bayer_frames_decode_to_flat_grey_at_any_pitch() {
    // A pitch of 0 is widened to a row of samples by the decoder.
    let res = Resolution::new(4, 3).unwrap();
    for code in [*b"RG10", *b"GB10", *b"pRAA", *b"BA81"] {
        let fourcc = FourCc::new(code);
        let info = bayer_info(fourcc).unwrap();
        let meta = FrameMeta::new(MediaFormat::new(fourcc, res, ColorSpace::Unknown), 0);
        let (data, grey) = match &code {
            b"pRAA" => {
                let mut d = Vec::new();
                for _ in 0..3 {
                    d.extend_from_slice(&pack_raw10_4px(700, 700, 700, 700));
                }
                (d, (700u16 >> 2) as u8)
            }
            b"BA81" => (vec![90u8; 12], 90u8),
            _ => {
                let mut d = Vec::new();
                for _ in 0..12 {
                    d.extend_from_slice(&700u16.to_le_bytes());
                }
                (d, (700u16 >> 2) as u8)
            }
        };
        let mut dst = vec![0u8; 4 * 3 * 3];
        decode_bayer_into(info, fourcc, &meta, &vec![Plane::new(&data, 0)], &mut dst).unwrap();
        assert!(dst.iter().all(|&b| b == grey), "{:?}", code);
    }
}
