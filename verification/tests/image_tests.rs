use styx::format::{ColorSpace, FourCc, MediaFormat, Resolution};
use styx::image::{
    convert_packed_to_luma, convert_packed_to_rgb, frame_lease_to_dynamic_image,
    frame_to_dynamic_image, luma_route, make_single_plane_frame, repack_rows, rgb_route,
    rgb_to_rgba_frame, rgba_route, supports_luma_conversion, dynamic_image_ref_to_rg24_frame,
    dynamic_image_to_frame, dynamic_image_to_rg24_frame, ImageKind,
    LumaRoute, PixelImage, Repack, RgbRoute, RgbaRoute,
};
use styx::image_pools::{stages_external_copy, RecentSlots, StagingCopyStats};
use styx::meta::FrameMeta;
use styx::packed422::decode_packed422_into;
use styx::raw::CodecError;
use styx::rows::Plane;
use styx::yuv::{preferred_yuv_mode, yuv_to_rgb, YuvModeKind};

fn meta(code: FourCc, w: u32, h: u32, color: ColorSpace) -> FrameMeta {
    FrameMeta::new(MediaFormat::new(code, Resolution::new(w, h).unwrap(), color), 7)
}

#[test]
fn rejects_short_rgb_buffer() {
    let m = meta(FourCc::RG24, 2, 2, ColorSpace::Srgb);
    let stride = 2 * 3;
    let data = vec![0u8; stride * 2 - 1];
    let planes = vec![Plane::new(&data, stride)];
    assert!(frame_to_dynamic_image(&m, &planes, YuvModeKind::Balanced).is_none());
}

#[test]
fn dynamic_image_copies_padded_grey_rows() {
    let m = meta(FourCc::GREY, 2, 2, ColorSpace::Unknown);
    let data = [1u8, 2, 99, 3, 4, 99];
    let planes = vec![Plane::new(&data, 3)];
    let img = frame_to_dynamic_image(&m, &planes, YuvModeKind::Balanced).unwrap();
    assert_eq!(img.kind, ImageKind::Luma8);
    assert_eq!((img.width, img.height), (2, 2));
    assert_eq!(img.data, vec![1, 2, 3, 4]);
}

#[test]
fn dynamic_image_swaps_bgra_keeping_alpha() {
    let m = meta(FourCc::BGRA, 2, 1, ColorSpace::Srgb);
    let data = [255u8, 0, 0, 255, 0, 0, 255, 128];
    let planes = vec![Plane::new(&data, 8)];
    let img = frame_to_dynamic_image(&m, &planes, YuvModeKind::Balanced).unwrap();
    assert_eq!(img.kind, ImageKind::Rgba8);
    assert_eq!(img.data, vec![0, 0, 255, 255, 255, 0, 0, 128]);
}

#[test]
fn dynamic_image_drops_padding_of_32_bit_rgb() {
    let data = [10u8, 20, 30, 0, 40, 50, 60, 0];
    let planes = vec![Plane::new(&data, 8)];
    let xb = frame_to_dynamic_image(&meta(FourCc::XB24, 2, 1, ColorSpace::Srgb), &planes, YuvModeKind::Balanced).unwrap();
    assert_eq!(xb.kind, ImageKind::Rgb8);
    assert_eq!(xb.data, vec![30, 20, 10, 60, 50, 40]);
    let xr = frame_to_dynamic_image(&meta(FourCc::XR24, 2, 1, ColorSpace::Srgb), &planes, YuvModeKind::Balanced).unwrap();
    assert_eq!(xr.data, vec![10, 20, 30, 40, 50, 60]);
}

#[test]
fn dynamic_image_converts_padded_yuyv_with_integer_math() {
    let data = [100u8, 90, 110, 160, 0, 0, 50, 128, 60, 128, 0, 0];
    let planes = vec![Plane::new(&data, 6)];
    let m = meta(FourCc::YUYV, 2, 2, ColorSpace::Bt709);
    let img = frame_to_dynamic_image(&m, &planes, YuvModeKind::Balanced).unwrap();
    assert_eq!(img.kind, ImageKind::Rgb8);
    let p0 = yuv_to_rgb(100, 90, 160, ColorSpace::Bt709);
    let p1 = yuv_to_rgb(110, 90, 160, ColorSpace::Bt709);
    let p2 = yuv_to_rgb(50, 128, 128, ColorSpace::Bt709);
    let p3 = yuv_to_rgb(60, 128, 128, ColorSpace::Bt709);
    assert_eq!(
        img.data,
        vec![p0.0, p0.1, p0.2, p1.0, p1.1, p1.2, p2.0, p2.1, p2.2, p3.0, p3.1, p3.2]
    );
}

#[test]
fn dynamic_image_converts_nv12_and_i420_to_rgb() {
    let y = [16u8, 235, 128, 64];
    let uv = [128u8, 128];
    let planes = vec![Plane::new(&y, 2), Plane::new(&uv, 2)];
    let img = frame_to_dynamic_image(&meta(FourCc::NV12, 2, 2, ColorSpace::Bt709), &planes, YuvModeKind::Balanced).unwrap();
    assert_eq!(img.kind, ImageKind::Rgb8);
    assert_eq!(img.data.len(), 12);
    assert!(frame_to_dynamic_image(&meta(FourCc::NV12, 2, 2, ColorSpace::Bt709), &planes[..1].to_vec(), YuvModeKind::Balanced).is_none());

    let u = [128u8];
    let v = [128u8];
    let planes = vec![Plane::new(&y, 2), Plane::new(&u, 1), Plane::new(&v, 1)];
    let img = frame_to_dynamic_image(&meta(FourCc::I420, 2, 2, ColorSpace::Bt709), &planes, YuvModeKind::Balanced).unwrap();
    assert_eq!(img.data.len(), 12);
}

#[test]
fn dynamic_image_skips_unsupported_codes() {
    let data = [0u8; 16];
    let planes = vec![Plane::new(&data, 4)];
    assert!(frame_to_dynamic_image(&meta(FourCc::MJPG, 2, 2, ColorSpace::Srgb), &planes, YuvModeKind::Balanced).is_none());
}

#[test]
fn lease_image_takes_nv12_luma_plane() {
    let y = [1u8, 2, 0, 3, 4, 0];
    let uv = [128u8, 128, 0];
    let planes = vec![Plane::new(&y, 3), Plane::new(&uv, 3)];
    let img = frame_lease_to_dynamic_image(&meta(FourCc::NV21, 2, 2, ColorSpace::Bt709), &planes).unwrap();
    assert_eq!(img.kind, ImageKind::Luma8);
    assert_eq!(img.data, vec![1, 2, 3, 4]);
    assert!(frame_lease_to_dynamic_image(&meta(FourCc::BGRA, 2, 2, ColorSpace::Srgb), &planes).is_none());
}

#[test]
fn packed_rgb_conversion_keeps_or_marks_color_space() {
    let data = [1u8, 2, 3, 4, 5, 6];
    let planes = vec![Plane::new(&data, 6)];
    let rgb = convert_packed_to_rgb(&meta(FourCc::RGB3, 2, 1, ColorSpace::Bt709), &planes).unwrap();
    assert_eq!(rgb.meta.format.code, FourCc::RG24);
    assert_eq!(rgb.meta.format.color, ColorSpace::Bt709);
    assert_eq!(rgb.stride, 6);
    assert_eq!(rgb.data, vec![1, 2, 3, 4, 5, 6]);
    let bgr = convert_packed_to_rgb(&meta(FourCc::BG24, 2, 1, ColorSpace::Bt709), &planes).unwrap();
    assert_eq!(bgr.meta.format.color, ColorSpace::Srgb);
    assert_eq!(bgr.data, vec![3, 2, 1, 6, 5, 4]);
    assert!(convert_packed_to_rgb(&meta(FourCc::YUYV, 2, 1, ColorSpace::Srgb), &planes).is_none());
}

#[test]
fn packed_luma_conversion_weights_channels() {
    let data = [255u8, 0, 0, 7, 0, 255, 0, 7];
    let planes = vec![Plane::new(&data, 8)];
    let rgba = convert_packed_to_luma(&meta(FourCc::RGBA, 2, 1, ColorSpace::Srgb), &planes).unwrap();
    assert_eq!(rgba.meta.format.code, FourCc::R8);
    assert_eq!(rgba.meta.format.color, ColorSpace::Unknown);
    assert_eq!(rgba.data, vec![76, 149]);
    let bgra = convert_packed_to_luma(&meta(FourCc::BGRA, 2, 1, ColorSpace::Srgb), &planes).unwrap();
    assert_eq!(bgra.data, vec![28, 149]);
}

#[test]
fn rgb_to_rgba_is_opaque() {
    let data = [9u8, 8, 7];
    let planes = vec![Plane::new(&data, 3)];
    let out = rgb_to_rgba_frame(&meta(FourCc::RG24, 1, 1, ColorSpace::Bt709), &planes).unwrap();
    assert_eq!(out.meta.format.code, FourCc::RGBA);
    assert_eq!(out.meta.format.color, ColorSpace::Srgb);
    assert_eq!(out.meta.timestamp, 7);
    assert_eq!(out.data, vec![9, 8, 7, 255]);
}

#[test]
fn repack_rows_reads_at_stride() {
    let src = [1u8, 2, 3, 0, 4, 5, 6, 0];
    let out = repack_rows(Repack::Rgb { in_bpp: 3, swap: true }, &src, 4, 1, 2);
    assert_eq!(out, vec![3, 2, 1, 6, 5, 4]);
    let out = repack_rows(Repack::RgbToRgba, &src, 4, 1, 2);
    assert_eq!(out, vec![1, 2, 3, 255, 4, 5, 6, 255]);
}

#[test]
fn single_plane_frame_needs_exact_rows() {
    let m = meta(FourCc::RG24, 2, 2, ColorSpace::Srgb);
    assert!(make_single_plane_frame(&m, FourCc::RG24, ColorSpace::Srgb, 6, vec![0; 11]).is_none());
    let f = make_single_plane_frame(&m, FourCc::RG24, ColorSpace::Srgb, 6, vec![0; 12]).unwrap();
    assert_eq!(f.stride, 6);
}

#[test]
fn luma_conversion_support_by_code() {
    assert!(supports_luma_conversion(FourCc::NV12));
    assert!(supports_luma_conversion(FourCc::MJPG));
    assert!(supports_luma_conversion(FourCc::BGRA));
    assert!(!supports_luma_conversion(FourCc::NV21));
}

#[test]
fn packed422_decoder_follows_byte_order() {
    let data = [90u8, 100, 160, 110, 0, 0];
    let planes = vec![Plane::new(&data, 6)];
    let m = meta(FourCc::UYVY, 2, 1, ColorSpace::Bt709);
    let mut dst = vec![0u8; 6];
    let out = decode_packed422_into(FourCc::UYVY, [1, 0, 3, 2], &m, &planes, &mut dst).unwrap();
    assert_eq!(out.format.code, FourCc::RG24);
    let p0 = yuv_to_rgb(100, 90, 160, ColorSpace::Bt709);
    let p1 = yuv_to_rgb(110, 90, 160, ColorSpace::Bt709);
    assert_eq!(dst, vec![p0.0, p0.1, p0.2, p1.0, p1.1, p1.2]);
}

#[test]
fn packed422_decoder_handles_odd_width_with_room() {
    let data = [100u8, 90, 0, 160, 0, 0];
    let planes = vec![Plane::new(&data, 6)];
    let m = meta(FourCc::YVYU, 1, 1, ColorSpace::Srgb);
    let mut dst = vec![0u8; 4];
    decode_packed422_into(FourCc::YVYU, [0, 1, 2, 3], &m, &planes, &mut dst).unwrap();
    let p = yuv_to_rgb(100, 90, 160, ColorSpace::Srgb);
    assert_eq!(dst, vec![p.0, p.1, p.2, 0]);
}

#[test]
fn packed422_decoder_reports_failures() {
    let data = [0u8; 3];
    let planes = vec![Plane::new(&data, 4)];
    let m = meta(FourCc::UYVY, 2, 1, ColorSpace::Srgb);
    let mut dst = vec![0u8; 6];
    match decode_packed422_into(FourCc::UYVY, [1, 0, 3, 2], &m, &planes, &mut dst) {
        Err(CodecError::Codec(s)) => assert_eq!(s, "yuv422 plane buffer too short"),
        _ => panic!("expected a failure"),
    }
    match decode_packed422_into(FourCc::YUYV, [0, 1, 2, 3], &m, &planes, &mut dst) {
        Err(CodecError::FormatMismatch { expected, actual }) => {
            assert_eq!(expected, FourCc::YUYV);
            assert_eq!(actual, FourCc::UYVY);
        }
        _ => panic!("expected a mismatch"),
    }
    let empty: Vec<Plane> = Vec::new();
    match decode_packed422_into(FourCc::UYVY, [1, 0, 3, 2], &m, &empty, &mut dst) {
        Err(CodecError::Codec(s)) => assert_eq!(s, "yuv422 frame missing plane"),
        _ => panic!("expected a failure"),
    }
    let data = [0u8; 4];
    let planes = vec![Plane::new(&data, 4)];
    let mut short = vec![0u8; 5];
    match decode_packed422_into(FourCc::UYVY, [1, 0, 3, 2], &m, &planes, &mut short) {
        Err(CodecError::Codec(s)) => assert_eq!(s, "yuv422 dst buffer too short"),
        _ => panic!("expected a failure"),
    }
}

#[test]
fn conversions_route_by_code() {
    assert_eq!(rgb_route(FourCc::RG24), RgbRoute::Keep);
    assert_eq!(rgb_route(FourCc::MJPG), RgbRoute::Jpeg);
    assert_eq!(rgb_route(FourCc::NV12), RgbRoute::Nv12);
    assert_eq!(rgb_route(FourCc::YUYV), RgbRoute::Yuyv);
    assert_eq!(rgb_route(FourCc::I420), RgbRoute::I420);
    assert_eq!(rgb_route(FourCc::GREY), RgbRoute::Mono8);
    assert_eq!(rgb_route(FourCc::BGRA), RgbRoute::Packed);
    assert_eq!(rgba_route(FourCc::RGBA), RgbaRoute::Keep);
    assert_eq!(rgba_route(FourCc::NV12), RgbaRoute::ViaRgb);
    assert_eq!(rgba_route(FourCc::H264), RgbaRoute::Unsupported);
    assert_eq!(luma_route(FourCc::R8), LumaRoute::Keep);
    assert_eq!(luma_route(FourCc::NV12), LumaRoute::Nv12);
    assert_eq!(luma_route(FourCc::YUYV), LumaRoute::Yuyv);
    assert_eq!(luma_route(FourCc::JPEG), LumaRoute::Jpeg);
    assert_eq!(luma_route(FourCc::I420), LumaRoute::Packed);
}

#[test]
fn into_frame_preserves_closest_format() {
    let img = PixelImage { kind: ImageKind::Luma8, width: 2, height: 1, data: vec![1, 2] };
    let frame = img.into_frame(123).unwrap();
    assert_eq!(frame.meta.format.code, FourCc::new(*b"R8  "));
    assert_eq!(frame.meta.timestamp, 123);

    let img = PixelImage { kind: ImageKind::Rgb8, width: 1, height: 1, data: vec![3, 4, 5] };
    let frame = img.into_frame(7).unwrap();
    assert_eq!(frame.meta.format.code, FourCc::new(*b"RG24"));
    assert_eq!(frame.meta.timestamp, 7);

    let img = PixelImage { kind: ImageKind::Rgba8, width: 1, height: 1, data: vec![6, 7, 8, 9] };
    let frame = img.into_frame(0).unwrap();
    assert_eq!(frame.meta.format.code, FourCc::new(*b"RGBA"));
}

#[test]
fn image_frames_need_exact_rows_or_enough_to_copy() {
    let img = PixelImage { kind: ImageKind::Rgb8, width: 1, height: 2, data: vec![1, 2, 3, 4, 5, 6, 7] };
    assert!(img.to_frame(1).is_some());
    let copy = img.to_frame(1).unwrap();
    assert_eq!(copy.data, vec![1, 2, 3, 4, 5, 6]);
    assert_eq!((copy.stride, copy.meta.format.color), (3, ColorSpace::Srgb));
    assert!(img.clone().into_frame(1).is_none());
    assert!(dynamic_image_to_frame(img, 1).is_none());
    let empty = PixelImage { kind: ImageKind::Luma8, width: 0, height: 1, data: vec![] };
    assert!(empty.to_frame(0).is_none());
    let grey = PixelImage { kind: ImageKind::Luma8, width: 2, height: 1, data: vec![9, 8] };
    let frame = dynamic_image_to_frame(grey, 5).unwrap();
    assert_eq!((frame.meta.format.color, frame.stride, frame.data), (ColorSpace::Unknown, 2, vec![9, 8]));
}

#[test]
fn recent_slots_keep_four_sizes_most_recent_first() {
    let mut slots: RecentSlots<u32> = RecentSlots::new();
    assert!(!slots.touch(10, 1));
    assert!(!slots.touch(20, 2));
    assert!(slots.touch(10, 99));
    assert_eq!(*slots.front(), 1);
    assert_eq!(slots.get(1), &(20, 2));
    for (k, v) in [(30, 3), (40, 4), (50, 5)] {
        slots.touch(k, v);
    }
    assert_eq!(slots.len(), 4);
    let keys: Vec<usize> = (0..slots.len()).map(|i| slots.get(i).0).collect();
    assert_eq!(keys, vec![50, 40, 30, 10]);
    slots.clear();
    assert_eq!(slots.len(), 0);
}

#[test]
fn staging_copies_count_bytes_and_peak() {
    let mut stats = StagingCopyStats::default();
    stats.record(300);
    stats.record(100);
    assert_eq!(stats, StagingCopyStats { copies: 2, bytes: 400, peak_copy_bytes: 300 });
    let mut full = StagingCopyStats { copies: u64::MAX, bytes: u64::MAX, peak_copy_bytes: 0 };
    full.record(2);
    assert_eq!(full, StagingCopyStats { copies: 0, bytes: 1, peak_copy_bytes: 2 });
    assert!(!stages_external_copy(1 << 20, 1024, 100));
    assert!(stages_external_copy(1 << 20, 1024, 256));
    assert!(!stages_external_copy(100, 1024, 256));
}

#[test]
fn images_convert_to_rg24_frames() {
    let grey = PixelImage { kind: ImageKind::Luma8, width: 2, height: 1, data: vec![1, 2] };
    let f = dynamic_image_to_rg24_frame(grey, 3).unwrap();
    assert_eq!(f.data, vec![1, 1, 1, 2, 2, 2]);
    assert_eq!((f.meta.format.code, f.meta.format.color, f.stride, f.meta.timestamp), (FourCc::RG24, ColorSpace::Srgb, 6, 3));
    let rgba = PixelImage { kind: ImageKind::Rgba8, width: 1, height: 1, data: vec![6, 7, 8, 9] };
    assert_eq!(dynamic_image_ref_to_rg24_frame(&rgba, 0).unwrap().data, vec![6, 7, 8]);
    let long_rgb = PixelImage { kind: ImageKind::Rgb8, width: 1, height: 1, data: vec![3, 4, 5, 0] };
    assert_eq!(dynamic_image_ref_to_rg24_frame(&long_rgb, 0).unwrap().data, vec![3, 4, 5]);
    assert!(dynamic_image_to_rg24_frame(long_rgb, 0).is_none());
    let short = PixelImage { kind: ImageKind::Rgba8, width: 2, height: 1, data: vec![1, 2, 3, 4] };
    assert!(dynamic_image_ref_to_rg24_frame(&short, 0).is_none());
    let empty = PixelImage { kind: ImageKind::Rgb8, width: 1, height: 0, data: vec![] };
    assert!(dynamic_image_to_rg24_frame(empty, 0).is_none());
}

#[test]
fn preferred_yuv_mode_is_fast_only_on_arm64() {
    assert_eq!(preferred_yuv_mode(true), YuvModeKind::Fast);
    assert_eq!(preferred_yuv_mode(false), YuvModeKind::Balanced);
}

#[test]
fn image_survives_round_trip_through_frame() {
    for (kind, bpp) in [(ImageKind::Luma8, 1usize), (ImageKind::Rgb8, 3), (ImageKind::Rgba8, 4)] {
        let data: Vec<u8> = (0..(3 * 2 * bpp) as u8).map(|v| v.wrapping_mul(37)).collect();
        let img = PixelImage { kind, width: 3, height: 2, data: data.clone() };
        let f = dynamic_image_to_frame(img, 7).unwrap();
        let planes = vec![Plane::new(&f.data, f.stride)];
        let back = frame_to_dynamic_image(&f.meta, &planes, YuvModeKind::Balanced).unwrap();
        assert_eq!(back.kind, kind);
        assert_eq!((back.width, back.height), (3, 2));
        assert_eq!(back.data, data);
    }
}

#[test]
fn dynamic_image_converts_nv12_with_padded_chroma_rows_with_integer_math() {
    let y = [40u8, 90, 150, 220];
    let uv = [100u8, 170, 0, 0];
    let planes = vec![Plane::new(&y, 2), Plane::new(&uv, 4)];
    let img = frame_to_dynamic_image(&meta(FourCc::NV12, 2, 2, ColorSpace::Bt709), &planes, YuvModeKind::Fast).unwrap();
    let mut want = Vec::new();
    for &l in y.iter() {
        let (r, g, b) = yuv_to_rgb(l as i32, 100, 170, ColorSpace::Bt709);
        want.extend_from_slice(&[r, g, b]);
    }
    assert_eq!(img.data, want);
}
