//! Capture modes, the descriptor a source advertises, and the check of a
//! user's capture configuration against that descriptor.
use vstd::prelude::*;

use crate::controls::{control_accepts, Access, ControlId, ControlMeta, ControlValue};
use crate::format::{Interval, IntervalStepwise, MediaFormat};

verus! {

/// Identifier for a capture mode keyed by its format and optional interval.
#[derive(Debug, Clone, Copy, PartialEq, Eq, Structural)]
pub struct ModeId {
    /// Pixel format and resolution for this mode.
    pub format: MediaFormat,
    /// Optional interval associated with this mode.
    pub interval: Option<Interval>,
}

/// Descriptor for a single capture mode (format + intervals).
#[derive(Debug, Clone)]
pub struct Mode {
    /// Identifier (format + optional interval) for this mode.
    pub id: ModeId,
    /// Media format associated with the mode.
    pub format: MediaFormat,
    /// Supported frame intervals.
    pub intervals: Vec<Interval>,
    /// Optional stepwise interval range.
    pub interval_stepwise: Option<IntervalStepwise>,
}

/// A mode for `format` that advertises `interval` (if any) as its only
/// interval and has no stepwise range.
pub open spec fn mode_for(m: Mode, format: MediaFormat, interval: Option<Interval>) -> bool {
    &&& m.id == (ModeId { format, interval })
    &&& m.format == format
    &&& m.intervals@ == match interval {
        Some(i) => seq![i],
        None => Seq::<Interval>::empty(),
    }
    &&& m.interval_stepwise is None
}

impl Mode {
    /// Create a mode for a format without advertised frame intervals.
    pub fn new(format: MediaFormat) -> (r: Self)
        ensures
            mode_for(r, format, None),
    {
        Mode { id: ModeId { format, interval: None }, format, intervals: Vec::new(), interval_stepwise: None }
    }

    /// Create a mode for a format with one advertised frame interval.
    pub fn with_interval(format: MediaFormat, interval: Interval) -> (r: Self)
        ensures
            mode_for(r, format, Some(interval)),
    {
        let mut intervals: Vec<Interval> = Vec::new();
        intervals.push(interval);
        assert(intervals@ == seq![interval]);
        Mode { id: ModeId { format, interval: Some(interval) }, format, intervals, interval_stepwise: None }
    }
}

/// One mode per format, in order, each without advertised intervals.
pub fn modes_from_formats(formats: &[MediaFormat]) -> (r: Vec<Mode>)
    ensures
        r@.len() == formats@.len(),
        forall|i: int| 0 <= i < formats@.len() ==> mode_for(#[trigger] r@[i], formats@[i], None),
{
    let mut out: Vec<Mode> = Vec::new();
    let n = formats.len();
    let mut i: usize = 0;
    while i < n
        invariant
            i <= n,
            n == formats@.len(),
            out@.len() == i,
            forall|k: int| 0 <= k < i ==> mode_for(#[trigger] out@[k], formats@[k], None),
        decreases n - i,
    {
        out.push(Mode::new(formats[i]));
        i = i + 1;
    }
    out
}

/// Descriptor for a capture device/source.
#[derive(Debug, Clone)]
pub struct CaptureDescriptor {
    /// Supported modes.
    pub modes: Vec<Mode>,
    /// Supported controls.
    pub controls: Vec<ControlMeta>,
}

impl CaptureDescriptor {
    /// Build a descriptor with no controls.
    pub fn new(modes: Vec<Mode>) -> (r: Self)
        ensures
            r.modes@ == modes@,
            r.controls@.len() == 0,
    {
        CaptureDescriptor { modes, controls: Vec::new() }
    }

    /// Attach controls to a descriptor.
    pub fn with_controls(self, controls: Vec<ControlMeta>) -> (r: Self)
        ensures
            r.modes@ == self.modes@,
            r.controls@ == controls@,
    {
        CaptureDescriptor { modes: self.modes, controls }
    }
}

/// User-selected configuration validated against a descriptor.
#[derive(Debug, Clone)]
pub struct CaptureConfig {
    /// Selected mode.
    pub mode: ModeId,
    /// Optional interval override.
    pub interval: Option<Interval>,
    /// Control assignments.
    pub controls: Vec<(ControlId, ControlValue)>,
}

/// Why a configuration does not fit a descriptor.
#[derive(Debug, Clone)]
pub enum ConfigError {
    /// No mode of the descriptor has the selected format.
    ModeNotFound,
    /// The mode advertises intervals and the requested one is not among them.
    IntervalNotSupported,
    /// The descriptor has no control with this identifier.
    ControlNotSupported(ControlId),
    /// The named control cannot be written.
    ControlReadOnly(String),
    /// The named control refuses the value.
    ControlRejected(String),
}

/// The first mode, from index `i` on, whose identifier has format `f`.
pub open spec fn mode_from(modes: Seq<Mode>, f: MediaFormat, i: int) -> Option<int>
    decreases modes.len() - i,
{
    if i < 0 || i >= modes.len() {
        None
    } else if modes[i].id.format == f {
        Some(i)
    } else {
        mode_from(modes, f, i + 1)
    }
}

/// The first control, from index `i` on, with identifier `id`.
pub open spec fn meta_from(metas: Seq<ControlMeta>, id: ControlId, i: int) -> Option<int>
    decreases metas.len() - i,
{
    if i < 0 || i >= metas.len() {
        None
    } else if metas[i].id == id {
        Some(i)
    } else {
        meta_from(metas, id, i + 1)
    }
}

/// The interval a configuration asks for: the mode's own, else the override.
pub open spec fn requested_interval(cfg: CaptureConfig) -> Option<Interval> {
    match cfg.mode.interval {
        Some(i) => Some(i),
        None => cfg.interval,
    }
}

/// Whether mode `m` takes the requested interval.  A mode that advertises
/// no interval at all takes any; otherwise the interval must be one of its
/// intervals or, where it has a stepwise range, lie on that range, which
/// `on_step` says.
pub open spec fn interval_accepted(m: Mode, req: Option<Interval>, on_step: bool) -> bool {
    match req {
        None => true,
        Some(iv) => {
            ||| m.intervals@.len() == 0 && m.interval_stepwise is None
            ||| m.intervals@.contains(iv)
            ||| m.interval_stepwise is Some && on_step
        },
    }
}

/// The verdict on the control assignments from index `i` on, in order:
/// the first that names no control, a read-only control, or a value its
/// control refuses, fails the configuration.
pub open spec fn controls_verdict(
    assigns: Seq<(ControlId, ControlValue)>,
    metas: Seq<ControlMeta>,
    i: int,
) -> Result<(), ConfigError>
    decreases assigns.len() - i,
{
    if i < 0 || i >= assigns.len() {
        Ok(())
    } else {
        match meta_from(metas, assigns[i].0, 0) {
            None => Err(ConfigError::ControlNotSupported(assigns[i].0)),
            Some(j) => if metas[j].access == Access::ReadOnly {
                Err(ConfigError::ControlReadOnly(metas[j].name))
            } else if !control_accepts(metas[j], assigns[i].1) {
                Err(ConfigError::ControlRejected(metas[j].name))
            } else {
                controls_verdict(assigns, metas, i + 1)
            },
        }
    }
}

/// The verdict on a configuration: its format must name a mode, the mode
/// must take the requested interval (`on_step` saying whether it lies on
/// the mode's stepwise range), and each control assignment must pass.
pub open spec fn config_verdict(cfg: CaptureConfig, d: CaptureDescriptor, on_step: bool) -> Result<
    (),
    ConfigError,
> {
    match mode_from(d.modes@, cfg.mode.format, 0) {
        None => Err(ConfigError::ModeNotFound),
        Some(i) => if !interval_accepted(d.modes@[i], requested_interval(cfg), on_step) {
            Err(ConfigError::IntervalNotSupported)
        } else {
            controls_verdict(cfg.controls@, d.controls@, 0)
        },
    }
}

/// The stepwise range and interval whose membership the check consults:
/// present when the mode is found, an interval is requested, it is not one
/// of the mode's intervals, and the mode has a stepwise range.
pub open spec fn step_query(cfg: CaptureConfig, d: CaptureDescriptor) -> Option<(IntervalStepwise, Interval)> {
    match mode_from(d.modes@, cfg.mode.format, 0) {
        None => None,
        Some(i) => match requested_interval(cfg) {
            None => None,
            Some(iv) => if d.modes@[i].intervals@.contains(iv) {
                None
            } else {
                match d.modes@[i].interval_stepwise {
                    Some(sw) => Some((sw, iv)),
                    None => None,
                }
            },
        },
    }
}

fn find_mode(modes: &Vec<Mode>, f: MediaFormat) -> (r: Option<usize>)
    ensures
        r matches Some(i) ==> mode_from(modes@, f, 0) == Some(i as int) && i < modes@.len(),
        r is None ==> mode_from(modes@, f, 0) is None,
{
    let n = modes.len();
    let mut i: usize = 0;
    while i < n
        invariant
            i <= n,
            n == modes@.len(),
            mode_from(modes@, f, 0) == mode_from(modes@, f, i as int),
        decreases n - i,
    {
        if modes[i].id.format == f {
            return Some(i);
        }
        i = i + 1;
    }
    None
}

fn find_meta(metas: &Vec<ControlMeta>, id: ControlId) -> (r: Option<usize>)
    ensures
        r matches Some(i) ==> meta_from(metas@, id, 0) == Some(i as int) && i < metas@.len(),
        r is None ==> meta_from(metas@, id, 0) is None,
{
    let n = metas.len();
    let mut i: usize = 0;
    while i < n
        invariant
            i <= n,
            n == metas@.len(),
            meta_from(metas@, id, 0) == meta_from(metas@, id, i as int),
        decreases n - i,
    {
        if metas[i].id == id {
            return Some(i);
        }
        i = i + 1;
    }
    None
}

fn lists_interval(intervals: &Vec<Interval>, iv: Interval) -> (r: bool)
    ensures
        r == intervals@.contains(iv),
{
    let n = intervals.len();
    let mut i: usize = 0;
    while i < n
        invariant
            i <= n,
            n == intervals@.len(),
            forall|k: int| 0 <= k < i ==> intervals@[k] != iv,
        decreases n - i,
    {
        if intervals[i] == iv {
            return true;
        }
        i = i + 1;
    }
    false
}

impl CaptureConfig {
    /// The stepwise range and interval whose membership `validate` needs:
    /// `Some` exactly where the verdict depends on it.
    pub fn interval_probe(&self, descriptor: &CaptureDescriptor) -> (r: Option<(IntervalStepwise, Interval)>)
        ensures
            r == step_query(*self, *descriptor),
    {
        let i = match find_mode(&descriptor.modes, self.mode.format) {
            Some(i) => i,
            None => return None,
        };
        let iv = match self.mode.interval {
            Some(iv) => iv,
            None => match self.interval {
                Some(iv) => iv,
                None => return None,
            },
        };
        let mode = &descriptor.modes[i];
        if lists_interval(&mode.intervals, iv) {
            return None;
        }
        match mode.interval_stepwise {
            Some(sw) => Some((sw, iv)),
            None => None,
        }
    }

    /// Validate a config against a descriptor.  `on_step` says whether the
    /// interval that `interval_probe` names lies on the stepwise range; it
    /// is consulted only where that probe is `Some`.
    pub fn validate(&self, descriptor: &CaptureDescriptor, on_step: bool) -> (r: Result<(), ConfigError>)
        ensures
            r == config_verdict(*self, *descriptor, on_step),
    {
        let i = match find_mode(&descriptor.modes, self.mode.format) {
            Some(i) => i,
            None => return Err(ConfigError::ModeNotFound),
        };
        let mode = &descriptor.modes[i];
        let req = match self.mode.interval {
            Some(iv) => Some(iv),
            None => self.interval,
        };
        if let Some(iv) = req {
            let has_metadata = mode.intervals.len() > 0 || mode.interval_stepwise.is_some();
            if has_metadata {
                let supported = lists_interval(&mode.intervals, iv) || (mode.interval_stepwise.is_some()
                    && on_step);
                if !supported {
                    return Err(ConfigError::IntervalNotSupported);
                }
            }
        }
        assert(config_verdict(*self, *descriptor, on_step) == controls_verdict(self.controls@, descriptor.controls@, 0));
        let n = self.controls.len();
        let mut k: usize = 0;
        while k < n
            invariant
                k <= n,
                config_verdict(*self, *descriptor, on_step) == controls_verdict(self.controls@, descriptor.controls@, 0),
                n == self.controls@.len(),
                controls_verdict(self.controls@, descriptor.controls@, 0) == controls_verdict(
                    self.controls@,
                    descriptor.controls@,
                    k as int,
                ),
            decreases n - k,
        {
            let (id, value) = self.controls[k];
            assert(self.controls@[k as int] == (id, value));
            let j = match find_meta(&descriptor.controls, id) {
                Some(j) => j,
                None => return Err(ConfigError::ControlNotSupported(id)),
            };
            let meta = &descriptor.controls[j];
            if meta.access == Access::ReadOnly {
                return Err(ConfigError::ControlReadOnly(meta.name.clone()));
            }
            if !meta.validate(&value) {
                return Err(ConfigError::ControlRejected(meta.name.clone()));
            }
            k = k + 1;
        }
        Ok(())
    }
}

/// The stepwise verdict handed to `validate` changes nothing where
/// `interval_probe` asks for none.
pub proof fn lemma_step_verdict_only_where_probed(cfg: CaptureConfig, d: CaptureDescriptor)
    requires
        step_query(cfg, d) is None,
    ensures
        config_verdict(cfg, d, true) == config_verdict(cfg, d, false),
{
}

proof fn lemma_mode_from_first(modes: Seq<Mode>, f: MediaFormat, i: int, k: int)
    requires
        0 <= i <= k < modes.len(),
        modes[k].id.format == f,
        forall|j: int| i <= j < k ==> modes[j].id.format != f,
    ensures
        mode_from(modes, f, i) == Some(k),
    decreases k - i,
{
    if i < k {
        lemma_mode_from_first(modes, f, i + 1, k);
    }
}

/// A configuration that selects a mode as built by `Mode::new` or
/// `Mode::with_interval` (the first of its format in the descriptor), with
/// no interval override and no control assignments, is accepted.
pub proof fn lemma_own_mode_accepted(
    d: CaptureDescriptor,
    k: int,
    interval: Option<Interval>,
    cfg: CaptureConfig,
    on_step: bool,
)
    requires
        0 <= k < d.modes@.len(),
        mode_for(d.modes@[k], d.modes@[k].format, interval),
        forall|j: int| 0 <= j < k ==> d.modes@[j].id.format != d.modes@[k].id.format,
        cfg.mode == d.modes@[k].id,
        cfg.interval is None,
        cfg.controls@.len() == 0,
    ensures
        config_verdict(cfg, d, on_step) == Ok::<(), ConfigError>(()),
{
    lemma_mode_from_first(d.modes@, cfg.mode.format, 0, k);
    if let Some(iv) = interval {
        assert(d.modes@[k].intervals@[0] == iv);
    }
}

} // verus!
