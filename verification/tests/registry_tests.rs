use styx::format::FourCc;
use styx::ids::{
    is_hardware_implementation_name, parse_codec_kind, CodecDescriptor, CodecImplementationId,
    CodecKindParseError, CodecRegistryConfig, Preference,
};
use styx::meta::FrameResidency;
use styx::raw::CodecKind;
use styx::registry::{CodecEntry, CodecPolicy, RegistryCore};

fn decoder(impl_name: &'static str, slot: usize) -> CodecEntry {
    CodecEntry {
        descriptor: CodecDescriptor {
            kind: CodecKind::Decoder,
            input: FourCc::MJPG,
            output: FourCc::RG24,
            name: "mjpeg",
            impl_name,
        },
        slot,
    }
}

#[test]
fn codec_implementation_id_normalizes_and_classifies_hardware() {
    let id = CodecImplementationId::new(" FFMPEG-VAAPI ");
    assert_eq!(id.as_str(), "ffmpeg-vaapi");
    assert!(id.is_hardware_accelerated());

    let descriptor = CodecDescriptor {
        kind: CodecKind::Decoder,
        input: FourCc::MJPG,
        output: FourCc::RG24,
        name: "mjpeg",
        impl_name: "jpeg-decoder",
    };
    assert_eq!(descriptor.implementation_id().as_str(), "jpeg-decoder");
    assert!(!descriptor.is_hardware_accelerated());
}

#[test]
fn codec_kind_roundtrips_stable_api_strings() {
    assert_eq!(CodecKind::Encoder.as_str(), "encoder");
    assert_eq!("decode".parse::<CodecKind>(), Ok(CodecKind::Decoder));
    assert!("unknown".parse::<CodecKind>().is_err());
}

#[test]
fn codec_kind_parse_ignores_case_and_spaces() {
    assert_eq!(parse_codec_kind("  ENCODER\t"), Ok(CodecKind::Encoder));
    assert_eq!(parse_codec_kind("Encode"), Ok(CodecKind::Encoder));
    let err = parse_codec_kind(" nope ").unwrap_err();
    assert_eq!(err, CodecKindParseError { value: " nope ".to_string() });
    assert_eq!(err.message(), "unknown codec kind ' nope '");
}

#[test]
fn hardware_names_are_recognised_in_any_case() {
    assert!(is_hardware_implementation_name("h264_NVENC"));
    assert!(is_hardware_implementation_name("V4L2M2M"));
    assert!(!is_hardware_implementation_name("zune-jpeg"));
    assert_eq!(CodecImplementationId::zune_jpeg().as_str(), "zune-jpeg");
    assert_eq!(CodecImplementationId::ffmpeg(), CodecImplementationId::new("FFmpeg"));
}

#[test]
fn policy_ordered_impls_normalize_to_typed_ids() {
    let policy = CodecPolicy::builder(FourCc::MJPG).ordered_impls(&[" SOFT-CPU "]).build();
    assert_eq!(policy.ordered_impls[0], CodecImplementationId::new("soft-cpu"));
}

#[test]
fn auto_lookup_uses_policy_priority_before_hardware_bias() {
    let mut registry = RegistryCore::new();
    registry.register(FourCc::MJPG, decoder("h264-v4l2m2m", 0));
    registry.register(FourCc::MJPG, decoder("soft-cpu", 1));

    assert_eq!(registry.lookup_auto(FourCc::MJPG).unwrap().descriptor.impl_name, "h264-v4l2m2m");

    registry.set_policy(
        &CodecPolicy::builder(FourCc::MJPG).prefer_hardware(false).priority(" SOFT-CPU ", 0).build(),
    );

    assert_eq!(registry.lookup_auto(FourCc::MJPG).unwrap().descriptor.impl_name, "soft-cpu");
}

#[test]
fn preference_accepts_ergonomic_strings_but_stores_typed_ids() {
    let preference = Preference::hardware_biased(&[" SOFT-CPU ", "h264-v4l2m2m"]);
    assert_eq!(
        preference.impls,
        vec![CodecImplementationId::new("soft-cpu"), CodecImplementationId::new("h264-v4l2m2m")]
    );
    assert!(preference.prefer_hardware);
}

#[test]
fn preferred_lookup_accepts_typed_impl_ids() {
    let mut registry = RegistryCore::new();
    registry.register(FourCc::MJPG, decoder("h264-v4l2m2m", 0));
    registry.register(FourCc::MJPG, decoder("soft-cpu", 1));

    let codec = registry
        .lookup_preferred_ids(FourCc::MJPG, &vec![CodecImplementationId::new(" SOFT-CPU ")], true)
        .unwrap();
    assert_eq!(codec.descriptor.impl_name, "soft-cpu");
}

#[test]
fn codec_registry_config_sanitizes_dimensions() {
    assert_eq!(CodecRegistryConfig::new(0, 720), CodecRegistryConfig { max_width: 1, max_height: 720 });
}

#[test]
fn registration_keeps_selection_order() {
    let mut registry = RegistryCore::new();
    registry.register(FourCc::MJPG, decoder("zeta", 0));
    registry.register(FourCc::MJPG, decoder("alpha", 1));
    registry.register(FourCc::MJPG, decoder("ffmpeg-vaapi", 2));
    let order: Vec<usize> = registry.registered()[0].1.iter().map(|e| e.slot).collect();
    assert_eq!(order, vec![2, 1, 0]);
    assert_eq!(registry.lookup(FourCc::MJPG).unwrap().slot, 2);

    registry.set_impl_priority(FourCc::MJPG, CodecImplementationId::new("zeta"), -1);
    assert_eq!(registry.lookup(FourCc::MJPG).unwrap().slot, 0);

    registry.set_default_hardware_bias(false);
    registry.register(FourCc::MJPG, decoder("beta", 3));
    let order: Vec<usize> = registry.registered()[0].1.iter().map(|e| e.slot).collect();
    assert_eq!(order, vec![0, 1, 3, 2]);
}

#[test]
fn disabling_and_enabling_implementations() {
    let mut registry = RegistryCore::new();
    registry.register(FourCc::MJPG, decoder("a", 0));
    registry.register(FourCc::MJPG, decoder("b", 1));
    registry.register(FourCc::MJPG, decoder("c", 2));
    registry.disable_impl(FourCc::MJPG, CodecImplementationId::new("B"));
    assert!(registry.lookup_named(FourCc::MJPG, CodecImplementationId::new("b")).is_none());
    registry.enable_only(FourCc::MJPG, &["C"]);
    assert_eq!(registry.lookup(FourCc::MJPG).unwrap().slot, 2);
    assert!(registry.lookup_named(FourCc::MJPG, CodecImplementationId::new("a")).is_none());
    assert!(registry.lookup(FourCc::H264).is_none());
}

#[test]
fn preferences_and_kind_filters_drive_auto_selection() {
    let mut registry = RegistryCore::new();
    registry.register(FourCc::MJPG, decoder("a", 0));
    let mut encoder = decoder("enc", 1);
    encoder.descriptor.kind = CodecKind::Encoder;
    encoder.descriptor.name = "MJPEG-Enc";
    registry.register(FourCc::MJPG, encoder);
    registry.set_preference(FourCc::MJPG, Preference::hardware_biased(&["enc"]));
    assert_eq!(registry.lookup_auto(FourCc::MJPG).unwrap().slot, 1);
    assert_eq!(registry.lookup_auto_kind(FourCc::MJPG, CodecKind::Decoder).unwrap().slot, 0);
    assert_eq!(
        registry.lookup_auto_kind_by_name(FourCc::MJPG, CodecKind::Encoder, "mjpeg-enc").unwrap().slot,
        1
    );
    assert!(registry.lookup_auto_kind_by_name(FourCc::MJPG, CodecKind::Encoder, "mjpeg").is_none());
    let (code, entry) = registry.lookup_by_impl(CodecKind::Encoder, CodecImplementationId::new("ENC")).unwrap();
    assert_eq!((code, entry.slot), (FourCc::MJPG, 1));
    assert!(registry.lookup_by_impl(CodecKind::Decoder, CodecImplementationId::new("enc")).is_none());
    assert_eq!(registry.lookup_converter(FourCc::MJPG, FourCc::RG24).unwrap().slot, 0);
    assert!(registry.lookup_converter(FourCc::MJPG, FourCc::NV12).is_none());
}

#[test]
fn residency_capabilities_follow_codec_kind_and_compression() {
    let host_or_dma = vec![FrameResidency::HostOwned, FrameResidency::HostExternal, FrameResidency::Dmabuf];
    let jpeg = CodecDescriptor { kind: CodecKind::Decoder, input: FourCc::MJPG, output: FourCc::RG24, name: "mjpeg", impl_name: "zune-jpeg" };
    let caps = jpeg.residency_capabilities();
    let mut packet_first = vec![FrameResidency::CompressedPacket];
    packet_first.extend(host_or_dma.iter().copied());
    assert_eq!(caps.accepted_inputs, packet_first);
    assert_eq!(caps.possible_outputs, host_or_dma);
    assert!(!caps.preserves_input_residency);
    let raw = CodecDescriptor { kind: CodecKind::Decoder, input: FourCc::YUYV, output: FourCc::RG24, name: "yuyv", impl_name: "yuv" };
    assert_eq!(raw.residency_capabilities().accepted_inputs, host_or_dma);
    let enc = CodecDescriptor { kind: CodecKind::Encoder, input: FourCc::RG24, output: FourCc::H264, name: "h264", impl_name: "ffmpeg" };
    assert_eq!(enc.residency_capabilities().possible_outputs, vec![FrameResidency::CompressedPacket]);
    assert_eq!(enc.residency_capabilities().accepted_inputs, host_or_dma);
    let to_rgb = CodecDescriptor { kind: CodecKind::Encoder, input: FourCc::NV12, output: FourCc::RG24, name: "x", impl_name: "y" };
    assert_eq!(to_rgb.residency_capabilities().possible_outputs, vec![FrameResidency::HostOwned]);
}

#[test]
fn well_known_implementation_ids() {
    assert_eq!(CodecImplementationId::jpeg_decoder().as_str(), "jpeg-decoder");
}
