use styx::format::{FourCc, MediaFormat};
use styx::meta::FrameMeta;
use styx::rows::Plane;
use styx::transform::{transform_packed_frame, FrameTransform, Rotation90, TransformError};

fn rg24(width: u32, height: u32) -> FrameMeta {
    FrameMeta::new(MediaFormat::srgb(FourCc::RG24, width, height).unwrap(), 0)
}

#[test]
fn rotate90_rg24() {
    // 2x1 image: pixels A B (RGB triplets)
    let pixels = [1u8, 0, 0, 2, 0, 0];
    let meta = rg24(2, 1);
    let planes = vec![Plane::new(&pixels, 6)];
    let (out_meta, layout, out_plane) = transform_packed_frame(
        &meta,
        &planes,
        FrameTransform {
            rotation: Rotation90::Deg90,
            mirror: false,
        },
    )
    .expect("transform");
    // After 90deg clockwise: 1x2 with A on top, B on bottom.
    assert_eq!(out_meta.format.resolution.width.get(), 1);
    assert_eq!(out_meta.format.resolution.height.get(), 2);
    assert_eq!(layout.stride, 3);
    assert_eq!(out_plane, vec![1, 0, 0, 2, 0, 0]);
}

#[test]
fn mirror_rg24() {
    let pixels = [1u8, 0, 0, 2, 0, 0];
    let meta = rg24(2, 1);
    let planes = vec![Plane::new(&pixels, 6)];
    let (_, _, out_plane) = transform_packed_frame(
        &meta,
        &planes,
        FrameTransform {
            rotation: Rotation90::Deg0,
            mirror: true,
        },
    )
    .expect("transform");
    assert_eq!(out_plane, vec![2, 0, 0, 1, 0, 0]);
}

#[test]
fn rotation_then_opposite_rotation_restores_frame() {
    // 3x2 RG24 frame with distinct bytes.
    let pixels: Vec<u8> = (0..18).collect();
    let meta = rg24(3, 2);
    let planes = vec![Plane::new(&pixels, 9)];
    let (mid_meta, mid_layout, mid) = transform_packed_frame(
        &meta,
        &planes,
        FrameTransform { rotation: Rotation90::Deg90, mirror: false },
    )
    .unwrap();
    assert_eq!(mid_meta.format.resolution.width.get(), 2);
    assert_eq!(mid_meta.format.resolution.height.get(), 3);
    assert_ne!(mid, pixels);
    let mid_planes = vec![Plane::new(&mid, mid_layout.stride)];
    let (back_meta, _, back) = transform_packed_frame(
        &mid_meta,
        &mid_planes,
        FrameTransform { rotation: Rotation90::Deg270, mirror: false },
    )
    .unwrap();
    assert_eq!(back_meta.format.resolution.width.get(), 3);
    assert_eq!(back, pixels);
}

#[test]
fn mirrored_rotation_undoes_itself() {
    let pixels: Vec<u8> = (0..18).collect();
    let meta = rg24(3, 2);
    let planes = vec![Plane::new(&pixels, 9)];
    let t = FrameTransform { rotation: Rotation90::Deg90, mirror: true };
    let (mid_meta, mid_layout, mid) = transform_packed_frame(&meta, &planes, t).unwrap();
    let mid_planes = vec![Plane::new(&mid, mid_layout.stride)];
    let (_, _, back) = transform_packed_frame(&mid_meta, &mid_planes, t).unwrap();
    assert_eq!(back, pixels);
}

#[test]
fn rejects_non_packed_formats() {
    let meta = FrameMeta::new(MediaFormat::srgb(FourCc::NV12, 2, 2).unwrap(), 0);
    let data = [0u8; 6];
    let planes = vec![Plane::new(&data, 2)];
    let r = transform_packed_frame(&meta, &planes, FrameTransform::default());
    assert!(matches!(r, Err(TransformError::UnsupportedFormat(FourCc::NV12))));
    let meta = rg24(2, 1);
    let r = transform_packed_frame(&meta, &Vec::new(), FrameTransform::default());
    assert!(matches!(r, Err(TransformError::UnsupportedLayout)));
}

#[test]
fn identity_transform_is_identity() {
    assert!(FrameTransform::default().is_identity());
    assert!(!FrameTransform { rotation: Rotation90::Deg180, mirror: false }.is_identity());
}
