use styx::av::{
    fourcc_for_pixel_format, pixel_format_for_fourcc, AvPixelFormat, DrmPrimeDescriptor, DrmPrimePlane,
};
use styx::decoder::{
    decoder_pool_limits, drm_frame_layouts, frame_timestamp, pack_decoded_rows,
    decoder_after_receive, decoder_after_send, plan_decoded_frame, supports_drm_prime_device,
    AfterReceive, AfterSend, DecodedFailure, DecodedPlan, HwConfig, HwDeviceType, ReceiveStatus,
    SendStatus,
};
use styx::encoder::{encoder_after_receive, encoder_after_send, next_pts, EncoderAfterReceive, EncoderAfterSend};
use styx::format::FourCc;
use styx::frame::PlaneLayout;
use styx::raw::CodecError;

#[test]
fn decoder_pool_uses_configured_or_default_limits() {
    assert_eq!(decoder_pool_limits(None), (64 * 1024, 4));
    assert_eq!(decoder_pool_limits(Some((1, 2, 3))), (2, 3));
}

#[test]
fn picture_timestamp_prefers_its_own_clamped_at_zero() {
    assert_eq!(frame_timestamp(Some(7), 9), 7);
    assert_eq!(frame_timestamp(Some(-5), 9), 0);
    assert_eq!(frame_timestamp(None, 9), 9);
}

#[test]
fn zero_copy_decoders_hand_pictures_out() {
    assert_eq!(
        plan_decoded_frame(true, AvPixelFormat::DrmPrime, FourCc::NV12, 64, 64),
        Ok(DecodedPlan::DrmPrime)
    );
    assert_eq!(
        plan_decoded_frame(true, AvPixelFormat::Yuv420p, FourCc::NV12, 64, 64),
        Ok(DecodedPlan::External { format: AvPixelFormat::Nv12, code: FourCc::NV12, convert: true })
    );
    assert_eq!(
        plan_decoded_frame(true, AvPixelFormat::Yuv420p, FourCc::I420, 64, 64),
        Ok(DecodedPlan::External { format: AvPixelFormat::Yuv420p, code: FourCc::I420, convert: false })
    );
}

#[test]
fn copying_decoders_pack_rows_of_the_output_format() {
    assert_eq!(
        plan_decoded_frame(false, AvPixelFormat::Yuv420p, FourCc::RG24, 640, 480),
        Ok(DecodedPlan::Packed { format: AvPixelFormat::Rgb24, convert: true, row_len: 1920, len: 921_600 })
    );
    assert_eq!(
        plan_decoded_frame(false, AvPixelFormat::DrmPrime, FourCc::NV12, 64, 64),
        Err(DecodedFailure::UnsupportedPacked)
    );
}

#[test]
fn decoded_pictures_need_a_size_and_a_known_output() {
    assert_eq!(
        plan_decoded_frame(false, AvPixelFormat::Rgb24, FourCc::RG24, 0, 4),
        Err(DecodedFailure::InvalidResolution)
    );
    assert_eq!(
        plan_decoded_frame(true, AvPixelFormat::Rgb24, FourCc::MJPG, 4, 4),
        Err(DecodedFailure::UnsupportedOutput)
    );
}

#[test]
fn packed_rows_skip_what_does_not_fit() {
    let src = [1u8, 2, 3, 0, 5, 6, 7, 0];
    let mut dst = [9u8; 6];
    pack_decoded_rows(&src, 4, &mut dst, 3, 2);
    assert_eq!(dst, [1, 2, 3, 5, 6, 7]);
    let short = [1u8, 2, 3, 0, 5];
    let mut dst = [9u8; 6];
    pack_decoded_rows(&short, 4, &mut dst, 3, 2);
    assert_eq!(dst, [1, 2, 3, 9, 9, 9]);
}

#[test]
fn drm_frames_map_planes_to_layouts() {
    let desc = DrmPrimeDescriptor {
        format: FourCc::NV12,
        planes: vec![
            DrmPrimePlane { fd: 3, offset: 0, len: 2048, stride: 64 },
            DrmPrimePlane { fd: 3, offset: 2048, len: 1024, stride: 64 },
        ],
        backing_bytes: 4096,
    };
    let layouts = drm_frame_layouts(&desc, FourCc::NV12).unwrap();
    assert_eq!(
        layouts,
        vec![
            PlaneLayout { offset: 0, len: 2048, stride: 64 },
            PlaneLayout { offset: 2048, len: 1024, stride: 64 },
        ]
    );
    match drm_frame_layouts(&desc, FourCc::RG24) {
        Err(CodecError::FormatMismatch { expected, actual }) => {
            assert_eq!((expected, actual), (FourCc::RG24, FourCc::NV12));
        }
        other => panic!("unexpected {:?}", other.is_ok()),
    }
}

#[test]
fn drm_prime_support_needs_a_device_context_config() {
    let vaapi = HwConfig { methods: 1, device_type: HwDeviceType::Other(3), pix_fmt: AvPixelFormat::Other(44) };
    let frames_only = HwConfig { methods: 2, device_type: HwDeviceType::Drm, pix_fmt: AvPixelFormat::DrmPrime };
    let drm = HwConfig { methods: 3, device_type: HwDeviceType::Drm, pix_fmt: AvPixelFormat::DrmPrime };
    assert!(!supports_drm_prime_device(&[]));
    assert!(!supports_drm_prime_device(&[vaapi, frames_only]));
    assert!(supports_drm_prime_device(&[vaapi, drm]));
}

#[test]
fn pixel_formats_map_back_to_their_codes() {
    for code in [FourCc::NV12, FourCc::I420, FourCc::YUYV, FourCc::RG24, FourCc::RGBA, FourCc::BGR3, FourCc::BGRA] {
        let fmt = pixel_format_for_fourcc(code).unwrap();
        assert_eq!(fourcc_for_pixel_format(fmt), Some(code));
    }
}

#[test]
fn decoder_session_decisions() {
    assert_eq!(decoder_after_send(SendStatus::Accepted), AfterSend::Drain);
    assert_eq!(decoder_after_send(SendStatus::Again), AfterSend::DrainThenResend);
    assert_eq!(decoder_after_send(SendStatus::Failed), AfterSend::ResetThenRetry);
    assert_eq!(decoder_after_receive(ReceiveStatus::Got, false), AfterReceive::Queue);
    assert_eq!(decoder_after_receive(ReceiveStatus::Eof, false), AfterReceive::Stop);
    assert_eq!(decoder_after_receive(ReceiveStatus::Failed, true), AfterReceive::ResetAndContinue);
    assert_eq!(decoder_after_receive(ReceiveStatus::Failed, false), AfterReceive::ResetAndFail);
}

#[test]
fn encoder_session_decisions() {
    assert_eq!(encoder_after_send(SendStatus::Again), EncoderAfterSend::DrainThenResend);
    assert_eq!(encoder_after_send(SendStatus::Failed), EncoderAfterSend::Fail);
    assert_eq!(encoder_after_receive(ReceiveStatus::Got, true), EncoderAfterReceive::Queue);
    assert_eq!(encoder_after_receive(ReceiveStatus::Got, false), EncoderAfterReceive::Fail);
    assert_eq!(encoder_after_receive(ReceiveStatus::Again, false), EncoderAfterReceive::Stop);
    assert_eq!(next_pts(4), (4, 5));
    assert_eq!(next_pts(u64::MAX), (u64::MAX, u64::MAX));
}
