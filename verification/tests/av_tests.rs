use styx::av::{
    bytes_per_pixel, drm_plane_height, drm_prime_descriptor_from_raw, fourcc_for_pixel_format,
    copy_rows, input_failure_message, layouts_for_frame, pick_encoder_pixel_format,
    pixel_format_for_fourcc, prefer_drm_prime_format, write_input_frame, AvDrmFrameDescriptor, AvDrmLayerDescriptor, AvDrmObjectDescriptor,
    AvDrmPlaneDescriptor, AvPixelFormat, InputFailure,
};
use styx::format::{ColorSpace, FourCc, MediaFormat, Resolution};
use styx::rows::Plane;
use styx::meta::FrameMeta;
use styx::frame::PlaneLayout;
use styx::jpeg::{jpeg_input, strip_app_segments, JpegInput, JpegInputError, JpegPixels, JpegSubsampling};
use styx::raw::CodecError;

fn object(size: usize) -> AvDrmObjectDescriptor {
    AvDrmObjectDescriptor { fd: -1, size, format_modifier: 0 }
}

fn plane(object_index: i32, offset: isize, pitch: isize) -> AvDrmPlaneDescriptor {
    AvDrmPlaneDescriptor { object_index, offset, pitch }
}

fn empty_layer() -> AvDrmLayerDescriptor {
    AvDrmLayerDescriptor { format: 0, nb_planes: 0, planes: [plane(0, 0, 0); 4] }
}

fn nv12_descriptor() -> AvDrmFrameDescriptor {
    AvDrmFrameDescriptor {
        nb_objects: 1,
        objects: [object(4096), object(0), object(0), object(0)],
        nb_layers: 1,
        layers: [
            AvDrmLayerDescriptor {
                format: FourCc::NV12.to_u32(),
                nb_planes: 2,
                planes: [plane(0, 0, 640), plane(0, 2048, 640), plane(0, 0, 0), plane(0, 0, 0)],
            },
            empty_layer(),
            empty_layer(),
            empty_layer(),
        ],
    }
}

#[test]
fn drm_prime_descriptor_parses_nv12_layout() {
    let desc = nv12_descriptor();
    let parsed = drm_prime_descriptor_from_raw(&desc, 4).expect("parse");
    assert_eq!(parsed.format, FourCc::NV12);
    assert_eq!(parsed.planes.len(), 2);
    assert_eq!(parsed.planes[0].len, 2560);
    assert_eq!(parsed.planes[1].offset, 2048);
    assert_eq!(parsed.planes[1].len, 1280);
    assert_eq!(parsed.backing_bytes, 4096);
}

#[test]
fn drm_prime_descriptor_clips_planes_to_their_object() {
    let mut desc = nv12_descriptor();
    desc.layers[0].planes[1] = plane(0, 4000, 640);
    let parsed = drm_prime_descriptor_from_raw(&desc, 4).expect("parse");
    assert_eq!(parsed.planes[1].len, 96);
    assert_eq!(parsed.planes[1].stride, 640);
}

fn failure_text(desc: &AvDrmFrameDescriptor) -> String {
    match drm_prime_descriptor_from_raw(desc, 4) {
        Err(CodecError::Codec(s)) => s,
        _ => panic!("expected a failure"),
    }
}

#[test]
fn drm_prime_descriptor_reports_each_defect() {
    let mut desc = nv12_descriptor();
    desc.nb_objects = 0;
    assert_eq!(failure_text(&desc), "ffmpeg DRM PRIME descriptor has invalid object count");
    let mut desc = nv12_descriptor();
    desc.nb_layers = 5;
    assert_eq!(failure_text(&desc), "ffmpeg DRM PRIME descriptor has invalid layer count");
    let mut desc = nv12_descriptor();
    desc.layers[0].nb_planes = 0;
    assert_eq!(failure_text(&desc), "ffmpeg DRM PRIME descriptor has invalid plane count");
    let mut desc = nv12_descriptor();
    desc.layers[0].planes[1] = plane(1, 0, 640);
    assert_eq!(failure_text(&desc), "ffmpeg DRM PRIME plane references invalid object");
    let mut desc = nv12_descriptor();
    desc.layers[0].planes[0] = plane(0, 0, 0);
    assert_eq!(failure_text(&desc), "ffmpeg DRM PRIME plane has invalid layout");
    let mut desc = nv12_descriptor();
    desc.layers[0].planes[1] = plane(0, 5000, 640);
    assert_eq!(failure_text(&desc), "ffmpeg DRM PRIME plane offset exceeds object size");
}

#[test]
fn drm_chroma_planes_have_half_the_rows() {
    assert_eq!(drm_plane_height(FourCc::NV12, 1, 5), 3);
    assert_eq!(drm_plane_height(FourCc::NV12, 0, 5), 5);
    assert_eq!(drm_plane_height(FourCc::YV12, 2, 5), 3);
    assert_eq!(drm_plane_height(FourCc::RG24, 1, 5), 5);
}

#[test]
fn prefer_drm_prime_format_picks_drm_when_offered() {
    let formats = [AvPixelFormat::Nv12, AvPixelFormat::DrmPrime, AvPixelFormat::NoFormat];
    assert_eq!(prefer_drm_prime_format(&formats), AvPixelFormat::DrmPrime);
}

#[test]
fn prefer_drm_prime_format_falls_back_to_first() {
    let formats = [AvPixelFormat::Nv12, AvPixelFormat::Yuv420p, AvPixelFormat::NoFormat];
    assert_eq!(prefer_drm_prime_format(&formats), AvPixelFormat::Nv12);
    assert_eq!(prefer_drm_prime_format(&[AvPixelFormat::NoFormat]), AvPixelFormat::NoFormat);
}

#[test]
fn pixel_formats_map_to_codes_both_ways() {
    assert_eq!(pixel_format_for_fourcc(FourCc::I420), Some(AvPixelFormat::Yuv420p));
    assert_eq!(pixel_format_for_fourcc(FourCc::BGR3), Some(AvPixelFormat::Bgr24));
    assert_eq!(pixel_format_for_fourcc(FourCc::MJPG), None);
    assert_eq!(fourcc_for_pixel_format(AvPixelFormat::Yuvj420p), Some(FourCc::I420));
    assert_eq!(fourcc_for_pixel_format(AvPixelFormat::DrmPrime), None);
    assert_eq!(bytes_per_pixel(AvPixelFormat::Yuyv422), Some(2));
    assert_eq!(bytes_per_pixel(AvPixelFormat::Nv12), None);
}

#[test]
fn decoded_picture_layouts_follow_the_format() {
    let layouts = layouts_for_frame(AvPixelFormat::Nv12, 64, 4, &[64, 0], &[256, 1000]).unwrap();
    assert_eq!(
        layouts,
        vec![
            PlaneLayout { offset: 0, len: 256, stride: 64 },
            PlaneLayout { offset: 0, len: 0, stride: 64 },
        ]
    );
    let layouts = layouts_for_frame(AvPixelFormat::Rgb24, 4, 2, &[16], &[20]).unwrap();
    assert_eq!(layouts, vec![PlaneLayout { offset: 0, len: 20, stride: 16 }]);
    assert!(layouts_for_frame(AvPixelFormat::DrmPrime, 4, 2, &[], &[]).is_none());
}

#[test]
fn encoder_pixel_format_prefers_input_then_fallbacks() {
    let list = [AvPixelFormat::Yuv420p, AvPixelFormat::Nv12];
    assert_eq!(pick_encoder_pixel_format(FourCc::H264, AvPixelFormat::Nv12, true, &list), Some(AvPixelFormat::Nv12));
    assert_eq!(pick_encoder_pixel_format(FourCc::H264, AvPixelFormat::Rgb24, true, &list), Some(AvPixelFormat::Nv12));
    assert_eq!(pick_encoder_pixel_format(FourCc::MJPG, AvPixelFormat::Rgb24, true, &list), Some(AvPixelFormat::Yuv420p));
    assert_eq!(pick_encoder_pixel_format(FourCc::MJPG, AvPixelFormat::Rgb24, true, &[]), Some(AvPixelFormat::Yuvj420p));
    assert_eq!(pick_encoder_pixel_format(FourCc::H264, AvPixelFormat::Rgb24, true, &[]), Some(AvPixelFormat::Nv12));
    assert_eq!(
        pick_encoder_pixel_format(FourCc::H264, AvPixelFormat::Rgb24, true, &[AvPixelFormat::Bgra]),
        Some(AvPixelFormat::Bgra)
    );
    assert_eq!(pick_encoder_pixel_format(FourCc::H264, AvPixelFormat::Nv12, false, &list), None);
}

#[test]
fn strip_app_segments_drops_app_markers() {
    let data = [
        0xFF, 0xD8, // SOI
        0xFF, 0xE0, 0x00, 0x04, 0xAA, 0xBB, // APP0
        0xFF, 0xDB, 0x00, 0x03, 0x01, // DQT
        0xFF, 0xDA, 0x12, 0x34, 0x56, // SOS and scan
    ];
    let out = strip_app_segments(&data).unwrap();
    assert_eq!(
        out,
        vec![0xFF, 0xD8, 0xFF, 0xDB, 0x00, 0x03, 0x01, 0xFF, 0xDA, 0x12, 0x34, 0x56]
    );
}

#[test]
fn strip_app_segments_leaves_odd_streams_alone() {
    assert!(strip_app_segments(&[0xFF, 0xD9, 0x00, 0x00]).is_none());
    assert!(strip_app_segments(&[0xFF, 0xD8, 0xFF]).is_none());
    assert!(strip_app_segments(&[0xFF, 0xD8, 0x00, 0xE0, 0x00, 0x02]).is_none());
    assert!(strip_app_segments(&[0xFF, 0xD8, 0xFF, 0xE1, 0x00, 0x09, 0x00]).is_none());
    assert_eq!(strip_app_segments(&[0xFF, 0xD8, 0xFF, 0xE1, 0x00, 0x02]).unwrap(), vec![0xFF, 0xD8]);
}

fn input_meta(code: FourCc, w: u32, h: u32) -> FrameMeta {
    FrameMeta::new(MediaFormat::new(code, Resolution::new(w, h).unwrap(), ColorSpace::Unknown), 1)
}

#[test]
fn copy_rows_moves_rows_between_strides() {
    let src = [1u8, 2, 9, 3, 4, 9, 5, 6];
    let mut dst = [0u8; 10];
    let n = copy_rows(&src, 3, &mut dst, 4, 2, 3);
    assert_eq!(n, 3);
    assert_eq!(dst, [1, 2, 0, 0, 3, 4, 0, 0, 5, 6]);
}

#[test]
fn copy_rows_stops_at_first_row_that_does_not_fit() {
    let src = [1u8, 2, 3, 4, 5, 6];
    let mut dst = [0u8; 4];
    let n = copy_rows(&src, 2, &mut dst, 2, 2, 3);
    assert_eq!(n, 2);
    assert_eq!(dst, [1, 2, 3, 4]);
}

#[test]
fn write_input_frame_copies_rgb_rows_without_padding() {
    let meta = input_meta(FourCc::RG24, 1, 2);
    let data = [10u8, 20, 30, 0, 40, 50, 60, 0];
    let planes = vec![Plane::new(&data, 4)];
    let mut d0 = [0u8; 10];
    let (mut d1, mut d2) = ([0u8; 0], [0u8; 0]);
    let r = write_input_frame(&meta, &planes, AvPixelFormat::Rgb24, 1, 2, &mut d0, &mut d1, &mut d2, [5, 0, 0]);
    assert_eq!(r, Ok(()));
    assert_eq!(d0, [10, 20, 30, 0, 0, 40, 50, 60, 0, 0]);
}

#[test]
fn write_input_frame_reports_short_rgb_plane_after_copying_what_fits() {
    let meta = input_meta(FourCc::RG24, 1, 2);
    let data = [10u8, 20, 30];
    let planes = vec![Plane::new(&data, 3)];
    let mut d0 = [0u8; 6];
    let (mut d1, mut d2) = ([0u8; 0], [0u8; 0]);
    let r = write_input_frame(&meta, &planes, AvPixelFormat::Rgb24, 1, 2, &mut d0, &mut d1, &mut d2, [3, 0, 0]);
    assert_eq!(r, Err(InputFailure::RgbPlaneTooShort));
    assert_eq!(d0, [10, 20, 30, 0, 0, 0]);
    assert_eq!(input_failure_message(InputFailure::RgbPlaneTooShort), "RGB24 plane too short");
}

#[test]
fn write_input_frame_rejects_geometry_mismatch() {
    let meta = input_meta(FourCc::RG24, 2, 2);
    let data = [0u8; 12];
    let planes = vec![Plane::new(&data, 6)];
    let mut d0 = [7u8; 12];
    let (mut d1, mut d2) = ([0u8; 0], [0u8; 0]);
    let r = write_input_frame(&meta, &planes, AvPixelFormat::Rgb24, 2, 3, &mut d0, &mut d1, &mut d2, [6, 0, 0]);
    assert_eq!(r, Err(InputFailure::Geometry));
    assert_eq!(d0, [7u8; 12]);
    assert_eq!(input_failure_message(InputFailure::Geometry), "ffmpeg input frame geometry mismatch");
}

#[test]
fn write_input_frame_copies_nv12_planes() {
    let meta = input_meta(FourCc::NV12, 2, 2);
    let y = [1u8, 2, 0, 3, 4, 0];
    let uv = [5u8, 6, 0];
    let planes = vec![Plane::new(&y, 3), Plane::new(&uv, 3)];
    let mut d0 = [0u8; 4];
    let mut d1 = [0u8; 2];
    let mut d2 = [0u8; 0];
    let r = write_input_frame(&meta, &planes, AvPixelFormat::Nv12, 2, 2, &mut d0, &mut d1, &mut d2, [2, 2, 0]);
    assert_eq!(r, Ok(()));
    assert_eq!(d0, [1, 2, 3, 4]);
    assert_eq!(d1, [5, 6]);
}

#[test]
fn write_input_frame_checks_planar_lengths_first() {
    let meta = input_meta(FourCc::NV12, 2, 2);
    let y = [1u8, 2, 3];
    let uv = [5u8, 6];
    let planes = vec![Plane::new(&y, 2), Plane::new(&uv, 2)];
    let mut d0 = [0u8; 4];
    let mut d1 = [0u8; 2];
    let mut d2 = [0u8; 0];
    let r = write_input_frame(&meta, &planes, AvPixelFormat::Nv12, 2, 2, &mut d0, &mut d1, &mut d2, [2, 2, 0]);
    assert_eq!(r, Err(InputFailure::Nv12YTooShort));
    assert_eq!(d0, [0u8; 4]);
    let one = vec![Plane::new(&y, 2)];
    let r = write_input_frame(&meta, &one, AvPixelFormat::Nv12, 2, 2, &mut d0, &mut d1, &mut d2, [2, 2, 0]);
    assert_eq!(r, Err(InputFailure::Nv12Planes));
}

#[test]
fn write_input_frame_copies_i420_and_yuyv() {
    let meta = input_meta(FourCc::I420, 2, 2);
    let y = [1u8, 2, 3, 4];
    let u = [5u8];
    let v = [6u8];
    let planes = vec![Plane::new(&y, 2), Plane::new(&u, 1), Plane::new(&v, 1)];
    let mut d0 = [0u8; 4];
    let mut d1 = [0u8; 1];
    let mut d2 = [0u8; 1];
    let r = write_input_frame(&meta, &planes, AvPixelFormat::Yuv420p, 2, 2, &mut d0, &mut d1, &mut d2, [2, 1, 1]);
    assert_eq!(r, Ok(()));
    assert_eq!((d0, d1, d2), ([1, 2, 3, 4], [5], [6]));

    let meta = input_meta(FourCc::YUYV, 2, 1);
    let data = [9u8, 8, 7, 6];
    let planes = vec![Plane::new(&data, 4)];
    let mut d0 = [0u8; 4];
    let r = write_input_frame(&meta, &planes, AvPixelFormat::Yuyv422, 2, 1, &mut d0, &mut d1, &mut d2, [4, 0, 0]);
    assert_eq!(r, Ok(()));
    assert_eq!(d0, [9, 8, 7, 6]);
}

#[test]
fn write_input_frame_rejects_unsupported_format() {
    let meta = input_meta(FourCc::RG24, 1, 1);
    let data = [0u8; 3];
    let planes = vec![Plane::new(&data, 3)];
    let mut d0 = [0u8; 3];
    let (mut d1, mut d2) = ([0u8; 0], [0u8; 0]);
    let r = write_input_frame(&meta, &planes, AvPixelFormat::Other(77), 1, 1, &mut d0, &mut d1, &mut d2, [3, 0, 0]);
    assert_eq!(r, Err(InputFailure::Unsupported(AvPixelFormat::Other(77))));
}

#[test]
fn jpeg_encoder_input_follows_code_and_stride() {
    let grey = jpeg_input(FourCc::GREY, 4, 2, 0, 8).unwrap();
    assert_eq!(grey, JpegInput { pixels: JpegPixels::Gray, subsampling: JpegSubsampling::Gray, pitch: 4, len: 8 });
    let rgb = jpeg_input(FourCc::RG24, 2, 2, 8, 16).unwrap();
    assert_eq!(rgb, JpegInput { pixels: JpegPixels::Rgb, subsampling: JpegSubsampling::Sub2x2, pitch: 8, len: 16 });
    assert_eq!(jpeg_input(FourCc::RGBA, 2, 2, 8, 15), Err(JpegInputError::ShortFrame));
    assert_eq!(jpeg_input(FourCc::NV12, 2, 2, 2, 6), Err(JpegInputError::Unsupported(FourCc::NV12)));
    assert_eq!(jpeg_input(FourCc::RGBA, 1, 3, usize::MAX / 2, usize::MAX), Err(JpegInputError::StrideOverflow));
}
