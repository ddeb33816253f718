use styx::format::{ColorSpace, FourCc, MediaFormat, Resolution};
use styx::meta::{BackendFrameMeta, FrameMeta, FrameMutability, FrameResidency, V4l2FrameMeta};

#[test]
fn frame_meta_can_carry_v4l2_backend_details() {
    let res = Resolution::new(2, 2).unwrap();
    let fmt = MediaFormat::new(FourCc::RG24, res, ColorSpace::Srgb);
    let meta = FrameMeta::new(fmt, 123).with_backend(BackendFrameMeta::V4l2(V4l2FrameMeta {
        sequence: 7,
        bytes_used: 42,
        field: 1,
        flags: 2,
        zero_copy: true,
    }));

    let v4l2 = meta.v4l2().expect("missing v4l2 metadata");
    assert_eq!(v4l2.sequence, 7);
    assert_eq!(v4l2.bytes_used, 42);
    assert_eq!(v4l2.field, 1);
    assert_eq!(v4l2.flags, 2);
    assert!(v4l2.zero_copy);
}

#[test]
fn frame_meta_can_carry_capture_instant() {
    let res = Resolution::new(2, 2).unwrap();
    let fmt = MediaFormat::new(FourCc::RG24, res, ColorSpace::Srgb);
    let before = std::time::Instant::now();
    let meta = FrameMeta::new(fmt, 123).with_capture_instant(before);

    assert_eq!(meta.capture_instant(), Some(before));
}

#[test]
fn new_frame_meta_has_nothing_else_set() {
    let fmt = MediaFormat::srgb(FourCc::RG24, 2, 2).unwrap();
    let meta = FrameMeta::new(fmt, 5);
    assert_eq!(meta.timestamp, 5);
    assert!(meta.v4l2().is_none());
    assert!(meta.capture_instant().is_none());
    assert_eq!(meta.residency(), None);
    assert_eq!(meta.mutability(), FrameMutability::Mutable);
    let meta = meta.with_residency(FrameResidency::Dmabuf).with_mutability(FrameMutability::ReadOnly);
    assert_eq!(meta.residency(), Some(FrameResidency::Dmabuf));
    assert_eq!(meta.mutability(), FrameMutability::ReadOnly);
}

#[test]
fn residency_names_are_stable() {
    assert_eq!(FrameResidency::HostOwned.as_str(), "host_owned");
    assert_eq!(FrameResidency::Dmabuf.as_str(), "dmabuf");
}
