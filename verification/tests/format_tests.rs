use styx::format::{ColorSpace, FourCc, Interval, MediaFormat, NonZeroU32, Resolution};

#[test]
fn classifies_compressed_formats() {
    assert!(FourCc::MJPG.is_compressed());
    assert!(FourCc::H264.is_compressed());
    assert!(!FourCc::RG24.is_compressed());
    assert!(FourCc::JPEG.is_jpeg_encoded());
    assert!(!FourCc::H264.is_jpeg_encoded());
}

#[test]
fn estimates_common_raw_frame_bytes() {
    assert_eq!(FourCc::RG24.estimated_frame_bytes(640, 480), Some(921_600));
    assert_eq!(FourCc::NV12.estimated_frame_bytes(4, 2), Some(12));
    assert_eq!(FourCc::MJPG.estimated_frame_bytes(4, 2), None);
}

#[test]
fn fourcc_bytes_and_value_round_trip() {
    let c = FourCc::new(*b"RG24");
    assert_eq!(c, FourCc::RG24);
    assert_eq!(c.to_bytes(), *b"RG24");
    assert_eq!(FourCc::from_u32(c.to_u32()), c);
    let other = FourCc::new(*b"ABCD");
    assert_eq!(other, FourCc::Other(u32::from_le_bytes(*b"ABCD")));
    assert_eq!(FourCc::new(other.to_bytes()), other);
}

#[test]
fn resolution_rejects_zero_dimensions() {
    assert!(Resolution::new(0, 4).is_none());
    assert!(Resolution::new(4, 0).is_none());
    let res = Resolution::new(640, 480).unwrap();
    assert_eq!(res.width.get(), 640);
    assert_eq!(res.height.get(), 480);
    assert!(NonZeroU32::new(0).is_none());
}

#[test]
fn media_format_srgb_builds_format() {
    let fmt = MediaFormat::srgb(FourCc::RG24, 320, 240).unwrap();
    assert_eq!(fmt.code, FourCc::RG24);
    assert_eq!(fmt.color, ColorSpace::Srgb);
    assert_eq!(fmt.resolution.width.get(), 320);
    assert!(MediaFormat::srgb(FourCc::RG24, 0, 240).is_none());
}

#[test]
fn interval_within_compares_durations() {
    let thirty = Interval::from_fps(30).unwrap();
    let sixty = Interval::from_fps(60).unwrap();
    let fifteen = Interval::from_fps(15).unwrap();
    assert!(thirty.within(sixty, fifteen));
    assert!(!fifteen.within(sixty, thirty));
    assert!(Interval::new(1, 0).is_none());
}

#[test]
fn layout_info_reports_first_plane_row_bytes() {
    let info = FourCc::BGR3.layout_info();
    assert_eq!(info.first_plane_visible_row_bytes(4), Some(12));
    assert_eq!(FourCc::NV12.layout_info().first_plane_visible_row_bytes(5), Some(5));
}

#[test]
fn fourcc_reads_as_its_four_characters() {
    assert_eq!(FourCc::NV12.as_str().as_deref(), Some("NV12"));
    assert_eq!(FourCc::R8.as_str().as_deref(), Some("R8  "));
    assert_eq!(FourCc::new(*b"abcd").as_str().as_deref(), Some("abcd"));
    assert_eq!(FourCc::new([0xff, 0xfe, 0x00, 0x41]).as_str(), None);
    assert_eq!(FourCc::new([0xff, 0, 0, 0]).as_str(), None);
    // Two-byte UTF-8 sequences decode to their characters.
    assert_eq!(FourCc::new([0xc3, 0xa9, 0x41, 0x42]).as_str().as_deref(), Some("\u{e9}AB"));
    // An overlong form is not UTF-8.
    assert_eq!(FourCc::new([0xc0, 0x80, 0x41, 0x42]).as_str(), None);
}

#[test]
fn fourcc_shows_as_text_or_hex() {
    assert_eq!(FourCc::MJPG.to_string(), "MJPG");
    assert_eq!(FourCc::new([0xff, 0, 0, 0]).to_string(), "0x000000ff");
    assert_eq!(FourCc::new([0x01, 0x02, 0xfe, 0xab]).to_string(), "0xabfe0201");
}
