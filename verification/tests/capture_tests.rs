use styx::capture::{
    modes_from_formats, CaptureConfig, CaptureDescriptor, ConfigError, Mode, ModeId,
};
use styx::controls::{Access, ControlId, ControlKind, ControlMeta, ControlValue};
use styx::format::{ColorSpace, FourCc, Interval, IntervalStepwise, MediaFormat, Resolution};

fn rg24(w: u32, h: u32) -> MediaFormat {
    MediaFormat::srgb(FourCc::RG24, w, h).unwrap()
}

fn meta(id: u32, name: &str, access: Access, min: ControlValue, max: ControlValue) -> ControlMeta {
    ControlMeta {
        id: ControlId(id),
        name: name.to_string(),
        kind: ControlKind::Int,
        access,
        min,
        max,
        default: min,
        step: None,
        menu: None,
    }
}

fn float(v: f32) -> ControlValue {
    ControlValue::Float(v.to_bits())
}

#[test]
fn mode_id_keeps_format() {
    let res = Resolution::new(640, 480).unwrap();
    let format = MediaFormat::new(FourCc::RG24, res, ColorSpace::Srgb);
    let id = ModeId { format, interval: None };
    assert_eq!(id.format.code.to_bytes(), *b"RG24");
}

#[test]
fn mode_constructors_fill_id_and_intervals() {
    let format = rg24(320, 240);
    let mode = Mode::new(format);
    assert_eq!(mode.format.code, FourCc::RG24);
    assert_eq!(mode.id, ModeId { format, interval: None });
    assert!(mode.intervals.is_empty());
    let iv = Interval::from_fps(30).unwrap();
    let mode = Mode::with_interval(format, iv);
    assert_eq!(mode.id.interval, Some(iv));
    assert_eq!(mode.intervals, vec![iv]);
    assert!(mode.interval_stepwise.is_none());
}

#[test]
fn descriptor_and_modes_from_formats() {
    let format = rg24(320, 240);
    let descriptor = CaptureDescriptor::new(vec![Mode::new(format)]);
    assert_eq!(descriptor.modes.len(), 1);
    assert!(descriptor.controls.is_empty());
    let res = Resolution::new(2, 2).unwrap();
    let formats = [MediaFormat::new(FourCc::RG24, res, ColorSpace::Srgb)];
    let modes = modes_from_formats(&formats);
    assert_eq!(modes.len(), 1);
    assert_eq!(modes[0].id.format, formats[0]);
}

#[test]
fn config_for_own_mode_validates() {
    let format = rg24(320, 240);
    let mode = Mode::new(format);
    let descriptor = CaptureDescriptor::new(vec![mode.clone()]);
    let cfg = CaptureConfig { mode: mode.id, interval: None, controls: vec![] };
    assert!(cfg.interval_probe(&descriptor).is_none());
    assert!(cfg.validate(&descriptor, false).is_ok());
}

#[test]
fn config_with_unknown_format_is_refused() {
    let descriptor = CaptureDescriptor::new(vec![Mode::new(rg24(320, 240))]);
    let cfg = CaptureConfig { mode: ModeId { format: rg24(640, 480), interval: None }, interval: None, controls: vec![] };
    assert!(matches!(cfg.validate(&descriptor, true), Err(ConfigError::ModeNotFound)));
}

#[test]
fn interval_must_be_advertised_when_mode_lists_any() {
    let format = rg24(320, 240);
    let thirty = Interval::from_fps(30).unwrap();
    let sixty = Interval::from_fps(60).unwrap();
    let descriptor = CaptureDescriptor::new(vec![Mode::with_interval(format, thirty)]);
    let ok = CaptureConfig { mode: ModeId { format, interval: None }, interval: Some(thirty), controls: vec![] };
    assert!(ok.validate(&descriptor, false).is_ok());
    let bad = CaptureConfig { mode: ModeId { format, interval: Some(sixty) }, interval: Some(thirty), controls: vec![] };
    assert!(bad.interval_probe(&descriptor).is_none());
    assert!(matches!(bad.validate(&descriptor, true), Err(ConfigError::IntervalNotSupported)));
    // A mode without interval metadata takes any interval.
    let open = CaptureDescriptor::new(vec![Mode::new(format)]);
    assert!(bad.validate(&open, false).is_ok());
}

#[test]
fn stepwise_range_is_consulted_through_the_probe() {
    let format = rg24(320, 240);
    let mut mode = Mode::new(format);
    let range = IntervalStepwise {
        min: Interval::from_fps(60).unwrap(),
        max: Interval::from_fps(10).unwrap(),
        step: Interval::from_fps(10).unwrap(),
    };
    mode.interval_stepwise = Some(range);
    let descriptor = CaptureDescriptor::new(vec![mode]);
    let iv = Interval::from_fps(30).unwrap();
    let cfg = CaptureConfig { mode: ModeId { format, interval: None }, interval: Some(iv), controls: vec![] };
    assert_eq!(cfg.interval_probe(&descriptor), Some((range, iv)));
    assert!(cfg.validate(&descriptor, true).is_ok());
    assert!(matches!(cfg.validate(&descriptor, false), Err(ConfigError::IntervalNotSupported)));
}

#[test]
fn control_assignments_are_checked_in_order() {
    let format = rg24(320, 240);
    let gain = meta(1, "gain", Access::ReadWrite, ControlValue::Uint(0), ControlValue::Uint(255));
    let status = meta(2, "status", Access::ReadOnly, ControlValue::Uint(0), ControlValue::Uint(1));
    let descriptor = CaptureDescriptor::new(vec![Mode::new(format)]).with_controls(vec![gain, status]);
    let id = ModeId { format, interval: None };
    let good = CaptureConfig { mode: id, interval: None, controls: vec![(ControlId(1), ControlValue::Uint(32))] };
    assert!(good.validate(&descriptor, false).is_ok());
    let unknown = CaptureConfig { mode: id, interval: None, controls: vec![(ControlId(9), ControlValue::Uint(1))] };
    assert!(matches!(unknown.validate(&descriptor, false), Err(ConfigError::ControlNotSupported(ControlId(9)))));
    let read_only = CaptureConfig { mode: id, interval: None, controls: vec![(ControlId(2), ControlValue::Uint(1))] };
    match read_only.validate(&descriptor, false) {
        Err(ConfigError::ControlReadOnly(name)) => assert_eq!(name, "status"),
        other => panic!("unexpected {:?}", other),
    }
    let rejected = CaptureConfig {
        mode: id,
        interval: None,
        controls: vec![(ControlId(1), ControlValue::Uint(32)), (ControlId(1), ControlValue::Uint(300))],
    };
    match rejected.validate(&descriptor, false) {
        Err(ConfigError::ControlRejected(name)) => assert_eq!(name, "gain"),
        other => panic!("unexpected {:?}", other),
    }
}

#[test]
fn unsigned_control_validates_range() {
    let meta = ControlMeta {
        id: ControlId(1),
        name: "gain".into(),
        kind: ControlKind::Uint,
        access: Access::ReadWrite,
        min: ControlValue::Uint(0),
        max: ControlValue::Uint(255),
        default: ControlValue::Uint(16),
        step: Some(ControlValue::Uint(1)),
        menu: None,
    };
    assert!(meta.validate(&ControlValue::Uint(32)));
    assert!(!meta.validate(&ControlValue::Uint(256)));
    assert!(!meta.validate(&ControlValue::Int(32)));
}

#[test]
fn signed_control_validates_range_and_step() {
    let mut meta = ControlMeta {
        id: ControlId(1),
        name: "brightness".into(),
        kind: ControlKind::Int,
        access: Access::ReadWrite,
        min: ControlValue::Int(-10),
        max: ControlValue::Int(10),
        default: ControlValue::Int(0),
        step: Some(ControlValue::Int(1)),
        menu: None,
    };
    assert!(meta.validate(&ControlValue::Int(5)));
    assert!(!meta.validate(&ControlValue::Int(11)));
    meta.step = Some(ControlValue::Int(4));
    assert!(meta.validate(&ControlValue::Int(-2)));
    assert!(!meta.validate(&ControlValue::Int(-1)));
    meta.step = Some(ControlValue::Int(0));
    assert!(meta.validate(&ControlValue::Int(-1)));
}

#[test]
fn menu_controls_take_indices() {
    let mut m = meta(3, "mode", Access::ReadWrite, ControlValue::Uint(0), ControlValue::Uint(0));
    m.menu = Some(vec!["a".to_string(), "b".to_string()]);
    assert!(m.validate(&ControlValue::Uint(1)));
    assert!(!m.validate(&ControlValue::Uint(2)));
    assert!(m.validate(&ControlValue::Int(0)));
    assert!(!m.validate(&ControlValue::Int(-1)));
    assert!(!m.validate(&ControlValue::Bool(true)));
}

#[test]
fn bool_and_void_controls() {
    let flag = meta(4, "flag", Access::ReadWrite, ControlValue::Bool(false), ControlValue::Bool(true));
    assert!(flag.validate(&ControlValue::Bool(true)));
    assert!(flag.validate(&ControlValue::Bool(false)));
    let on = meta(5, "on", Access::ReadWrite, ControlValue::Bool(true), ControlValue::Bool(true));
    assert!(!on.validate(&ControlValue::Bool(false)));
    let void = meta(6, "trigger", Access::ReadWrite, ControlValue::Void, ControlValue::Void);
    assert!(void.validate(&ControlValue::Void));
    assert!(!void.validate(&ControlValue::Uint(0)));
}

#[test]
fn float_controls_compare_as_numbers() {
    let m = meta(7, "exposure", Access::ReadWrite, float(-1.5), float(2.0));
    assert!(m.validate(&float(0.0)));
    assert!(m.validate(&float(-0.0)));
    assert!(m.validate(&float(-1.5)));
    assert!(m.validate(&float(2.0)));
    assert!(!m.validate(&float(2.5)));
    assert!(!m.validate(&float(-2.0)));
    assert!(!m.validate(&float(f32::NAN)));
    assert!(!m.validate(&float(f32::INFINITY)));
}

#[test]
fn control_values_compare_by_value() {
    assert_eq!(ControlValue::Bool(true), ControlValue::Bool(true));
    assert_ne!(ControlValue::Bool(true), ControlValue::Uint(1));
    assert_eq!(float(0.0), float(-0.0));
    assert_ne!(float(f32::NAN), float(f32::NAN));
    assert_eq!(float(1.25), float(1.25));
}

#[test]
fn full_range_signed_step_is_checked_without_overflow() {
    let mut m = meta(8, "offset", Access::ReadWrite, ControlValue::Int(i32::MIN), ControlValue::Int(i32::MAX));
    m.step = Some(ControlValue::Int(2));
    assert!(m.validate(&ControlValue::Int(0)));
    assert!(m.validate(&ControlValue::Int(i32::MAX - 1)));
    assert!(!m.validate(&ControlValue::Int(i32::MAX)));
    let descriptor = CaptureDescriptor::new(vec![Mode::new(rg24(2, 2))]).with_controls(vec![m]);
    let id = ModeId { format: rg24(2, 2), interval: None };
    let cfg = CaptureConfig { mode: id, interval: None, controls: vec![(ControlId(8), ControlValue::Int(6))] };
    assert!(cfg.validate(&descriptor, false).is_ok());
    let odd = CaptureConfig { mode: id, interval: None, controls: vec![(ControlId(8), ControlValue::Int(5))] };
    assert!(matches!(odd.validate(&descriptor, false), Err(ConfigError::ControlRejected(_))));
}
