use styx::av::AvPixelFormat;
use styx::encoder::{
    encoder_settings, packet_meta, plan_encoder, probe_layouts, probe_sizes, target_resolution,
    EncoderGeometry, EncoderPlan, EncoderPlanError, FfmpegEncoderOptions,
};
use styx::format::{ColorSpace, FourCc, MediaFormat, Resolution};
use styx::frame::PlaneLayout;
use styx::meta::FrameMeta;

#[test]
fn encoder_options_default_to_twenty_megabits() {
    let opts = FfmpegEncoderOptions::default();
    assert_eq!(opts.bitrate, 20_000_000);
    assert!(opts.gop.is_none() && opts.framerate.is_none() && opts.output_resolution.is_none());
    assert_eq!(opts.with_bitrate(0).bitrate, 20_000_000);
    assert_eq!(opts.with_bitrate(5_000).bitrate, 5_000);
}

#[test]
fn target_resolution_prefers_configured_output() {
    let mut opts = FfmpegEncoderOptions::default();
    assert_eq!(target_resolution(&opts, 640, 480), (640, 480));
    opts.output_resolution = Resolution::new(320, 240);
    assert_eq!(target_resolution(&opts, 640, 480), (320, 240));
}

#[test]
fn encoder_settings_default_to_120_fps_and_one_second_gop() {
    let opts = FfmpegEncoderOptions::default();
    let s = encoder_settings(&opts, 640, 480, AvPixelFormat::Nv12);
    assert_eq!((s.width, s.height, s.format), (640, 480, AvPixelFormat::Nv12));
    assert_eq!(s.time_base, (1, 120));
    assert_eq!(s.frame_rate, (120, 1));
    assert_eq!(s.gop, 120);
    assert_eq!(s.max_b_frames, 0);
    assert_eq!(s.bit_rate, 20_000_000);
    assert_eq!(s.threads, None);
}

#[test]
fn encoder_settings_follow_configured_rate_and_gop() {
    let mut opts = FfmpegEncoderOptions::default();
    opts.framerate = Some((30000, 1001));
    opts.gop = Some(-1);
    opts.thread_count = Some(4);
    let s = encoder_settings(&opts, 1280, 720, AvPixelFormat::Yuv420p);
    assert_eq!(s.time_base, (1001, 30000));
    assert_eq!(s.frame_rate, (30000, 1001));
    assert_eq!(s.gop, u32::MAX);
    assert_eq!(s.threads, Some(4));
    opts.gop = Some(60);
    assert_eq!(encoder_settings(&opts, 1, 1, AvPixelFormat::Nv12).gop, 60);
}

#[test]
fn plan_opens_then_keeps_a_context() {
    let opts = FfmpegEncoderOptions::default();
    let supported = [AvPixelFormat::Nv12, AvPixelFormat::Yuv420p];
    let plan = plan_encoder(FourCc::RG24, FourCc::H264, true, &supported, &opts, None, 640, 480).unwrap();
    let geometry = EncoderGeometry {
        src_format: AvPixelFormat::Rgb24,
        src_width: 640,
        src_height: 480,
        dst_width: 640,
        dst_height: 480,
    };
    match plan {
        EncoderPlan::Open { geometry: g, settings, scaler } => {
            assert_eq!(g, geometry);
            assert_eq!(settings.format, AvPixelFormat::Nv12);
            assert!(scaler);
        }
        EncoderPlan::Keep => panic!("expected a new context"),
    }
    let again = plan_encoder(FourCc::RG24, FourCc::H264, true, &supported, &opts, Some(geometry), 640, 480);
    assert_eq!(again, Ok(EncoderPlan::Keep));
    let resized = plan_encoder(FourCc::RG24, FourCc::H264, true, &supported, &opts, Some(geometry), 320, 240);
    assert!(matches!(resized, Ok(EncoderPlan::Open { .. })));
}

#[test]
fn plan_skips_the_scaler_when_format_and_size_match() {
    let opts = FfmpegEncoderOptions::default();
    let supported = [AvPixelFormat::Nv12];
    match plan_encoder(FourCc::NV12, FourCc::H264, true, &supported, &opts, None, 64, 64) {
        Ok(EncoderPlan::Open { scaler, .. }) => assert!(!scaler),
        other => panic!("unexpected {:?}", other),
    }
}

#[test]
fn plan_reports_unsupported_input_and_missing_formats() {
    let opts = FfmpegEncoderOptions::default();
    let r = plan_encoder(FourCc::MJPG, FourCc::H264, true, &[], &opts, None, 64, 64);
    assert_eq!(r, Err(EncoderPlanError::UnsupportedInput(FourCc::MJPG)));
    let r = plan_encoder(FourCc::RG24, FourCc::H264, false, &[], &opts, None, 64, 64);
    assert_eq!(r, Err(EncoderPlanError::NoPixelFormat));
}

#[test]
fn probe_frames_are_vga_then_hd() {
    assert_eq!(probe_sizes(), [(640, 480), (1280, 720)]);
    let rgb = probe_layouts(FourCc::RG24, 640, 480).unwrap();
    assert_eq!(rgb, vec![PlaneLayout { offset: 0, len: 921_600, stride: 1920 }]);
    let nv12 = probe_layouts(FourCc::NV12, 640, 480).unwrap();
    assert_eq!(
        nv12,
        vec![
            PlaneLayout { offset: 0, len: 307_200, stride: 640 },
            PlaneLayout { offset: 0, len: 153_600, stride: 640 },
        ]
    );
    assert!(probe_layouts(FourCc::YUYV, 640, 480).is_none());
}

#[test]
fn packet_meta_takes_output_code_and_encoded_size() {
    let res = Resolution::new(640, 480).unwrap();
    let meta = FrameMeta::new(MediaFormat::new(FourCc::RG24, res, ColorSpace::Bt709), 42);
    let out = packet_meta(&meta, FourCc::H264, 320, 240);
    assert_eq!(out.format.code, FourCc::H264);
    assert_eq!(out.format.resolution, Resolution::new(320, 240).unwrap());
    assert_eq!(out.format.color, ColorSpace::Bt709);
    assert_eq!(out.timestamp, 42);
    let same = packet_meta(&meta, FourCc::H264, 0, 240);
    assert_eq!(same.format.resolution, res);
}
