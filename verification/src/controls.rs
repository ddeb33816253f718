//! Device controls: identifiers, kinds, values and the range check of a
//! value against a control's metadata.
use vstd::prelude::*;
use vstd::std_specs::cmp::PartialEqSpecImpl;

verus! {

/// Strongly typed control identifier.
#[derive(Debug, Clone, Copy, PartialEq, Eq, Hash, Structural)]
pub struct ControlId(pub u32);

/// Access permissions for a control.
#[derive(Debug, Clone, Copy, PartialEq, Eq, Structural)]
pub enum Access {
    ReadOnly,
    ReadWrite,
}

/// Control kind/type metadata.
#[derive(Debug, Clone, Copy, PartialEq, Eq, Structural)]
pub enum ControlKind {
    Void,
    Bool,
    Int,
    Uint,
    Float,
    Menu,
    IntMenu,
    Unknown,
}


/// The value of a control.  A float is held by its IEEE-754
/// single-precision bits.
#[derive(Debug, Clone, Copy)]
pub enum ControlValue {
    /// No value.
    Void,
    Bool(bool),
    Int(i32),
    Uint(u32),
    /// Single-precision float, by its bits.
    Float(u32),
}

/// The bits of a single-precision NaN: exponent all ones, fraction not zero.
pub open spec fn float_bits_nan(b: u32) -> bool {
    (b / 0x80_0000) % 0x100 == 0xff && b % 0x80_0000 != 0
}

/// Where a non-NaN single-precision value stands among the others: its
/// magnitude bits, negated when the sign bit is set, so that both zeros
/// stand at 0.
pub open spec fn float_bits_rank(b: u32) -> int {
    if b >= 0x8000_0000 {
        -((b % 0x8000_0000) as int)
    } else {
        b as int
    }
}

/// `a <= b` on the single-precision values of two bit patterns: false
/// where either is NaN.
pub open spec fn float_bits_le(a: u32, b: u32) -> bool {
    !float_bits_nan(a) && !float_bits_nan(b) && float_bits_rank(a) <= float_bits_rank(b)
}

/// `a == b` on the single-precision values of two bit patterns: NaN equals
/// nothing, and the two zeros are equal.
pub open spec fn float_bits_eq(a: u32, b: u32) -> bool {
    !float_bits_nan(a) && !float_bits_nan(b) && float_bits_rank(a) == float_bits_rank(b)
}

fn float_nan(b: u32) -> (r: bool)
    ensures
        r == float_bits_nan(b),
{
    (b / 0x80_0000) % 0x100 == 0xff && b % 0x80_0000 != 0
}

fn float_rank(b: u32) -> (r: i64)
    ensures
        r == float_bits_rank(b),
{
    if b >= 0x8000_0000 {
        -((b % 0x8000_0000) as i64)
    } else {
        b as i64
    }
}

fn float_le(a: u32, b: u32) -> (r: bool)
    ensures
        r == float_bits_le(a, b),
{
    !float_nan(a) && !float_nan(b) && float_rank(a) <= float_rank(b)
}

/// Two control values are equal when they are of one kind and hold equal
/// values, floats compared as numbers.
pub open spec fn control_value_eq(a: ControlValue, b: ControlValue) -> bool {
    match (a, b) {
        (ControlValue::Void, ControlValue::Void) => true,
        (ControlValue::Bool(x), ControlValue::Bool(y)) => x == y,
        (ControlValue::Int(x), ControlValue::Int(y)) => x == y,
        (ControlValue::Uint(x), ControlValue::Uint(y)) => x == y,
        (ControlValue::Float(x), ControlValue::Float(y)) => float_bits_eq(x, y),
        _ => false,
    }
}

impl PartialEq for ControlValue {
    fn eq(&self, other: &Self) -> (r: bool) {
        match (self, other) {
            (ControlValue::Void, ControlValue::Void) => true,
            (ControlValue::Bool(x), ControlValue::Bool(y)) => *x == *y,
            (ControlValue::Int(x), ControlValue::Int(y)) => *x == *y,
            (ControlValue::Uint(x), ControlValue::Uint(y)) => *x == *y,
            (ControlValue::Float(x), ControlValue::Float(y)) => !float_nan(*x) && !float_nan(*y) && float_rank(
                *x,
            ) == float_rank(*y),
            _ => false,
        }
    }
}

impl PartialEqSpecImpl for ControlValue {
    open spec fn obeys_eq_spec() -> bool {
        true
    }

    open spec fn eq_spec(&self, other: &ControlValue) -> bool {
        control_value_eq(*self, *other)
    }
}

/// Metadata of a control: its range, default, step and menu.
#[derive(Debug, Clone)]
pub struct ControlMeta {
    /// Stable identifier.
    pub id: ControlId,
    /// Human-readable name.
    pub name: String,
    /// Kind of control/value type.
    pub kind: ControlKind,
    /// Access permissions.
    pub access: Access,
    /// Minimum accepted value.
    pub min: ControlValue,
    /// Maximum accepted value.
    pub max: ControlValue,
    /// Default value.
    pub default: ControlValue,
    /// Optional step size for ranged controls.
    pub step: Option<ControlValue>,
    /// Optional enumerated menu entries (for menu controls).
    pub menu: Option<Vec<String>>,
}

/// What a menu decides of a value: an unsigned or signed index into the
/// menu is accepted when it names an entry; other values, or controls
/// without a menu, are left to the range check.
pub open spec fn menu_verdict(meta: ControlMeta, c: ControlValue) -> Option<bool> {
    match meta.menu {
        Some(menu) => match c {
            ControlValue::Uint(i) => Some(i < menu@.len()),
            ControlValue::Int(i) => Some(i >= 0 && i < menu@.len()),
            _ => None,
        },
        None => None,
    }
}

/// Whether `v` lies on the step grid from `lo` (a step that is not a
/// positive value of the same kind puts no grid).
pub open spec fn on_int_step(step: Option<ControlValue>, v: int, lo: int) -> bool {
    match step {
        Some(ControlValue::Int(s)) => s > 0 ==> (v - lo) % (s as int) == 0,
        _ => true,
    }
}

/// Whether `v` lies on the unsigned step grid from `lo`.
pub open spec fn on_uint_step(step: Option<ControlValue>, v: int, lo: int) -> bool {
    match step {
        Some(ControlValue::Uint(s)) => s > 0 ==> (v - lo) % (s as int) == 0,
        _ => true,
    }
}

/// The range check: a value, minimum and maximum of one kind, the value
/// between the two (`false` below `true` for flags), and on the step grid
/// for integers.
pub open spec fn range_accepts(meta: ControlMeta, c: ControlValue) -> bool {
    match (c, meta.min, meta.max) {
        (ControlValue::Bool(v), ControlValue::Bool(lo), ControlValue::Bool(hi)) => (!v || hi) && (v || !lo),
        (ControlValue::Int(v), ControlValue::Int(lo), ControlValue::Int(hi)) => lo <= v <= hi && on_int_step(
            meta.step,
            v as int,
            lo as int,
        ),
        (ControlValue::Uint(v), ControlValue::Uint(lo), ControlValue::Uint(hi)) => lo <= v <= hi && on_uint_step(
            meta.step,
            v as int,
            lo as int,
        ),
        (ControlValue::Float(v), ControlValue::Float(lo), ControlValue::Float(hi)) => float_bits_le(lo, v)
            && float_bits_le(v, hi),
        (ControlValue::Void, ControlValue::Void, ControlValue::Void) => true,
        _ => false,
    }
}

/// Whether a control accepts a value: by its menu where the menu decides,
/// else by the range check.
pub open spec fn control_accepts(meta: ControlMeta, c: ControlValue) -> bool {
    match menu_verdict(meta, c) {
        Some(b) => b,
        None => range_accepts(meta, c),
    }
}

impl ControlMeta {
    /// Basic range validation respecting the variant: a menu index must
    /// name an entry; otherwise value, minimum and maximum must be of one
    /// kind, the value within the two and, for integers with a positive
    /// step, a whole number of steps above the minimum.
    pub fn validate(&self, candidate: &ControlValue) -> (r: bool)
        ensures
            r == control_accepts(*self, *candidate),
    {
        if let Some(menu) = &self.menu {
            if let ControlValue::Uint(idx) = candidate {
                return (*idx as usize) < menu.len();
            }
            if let ControlValue::Int(idx) = candidate {
                return *idx >= 0 && (*idx as usize) < menu.len();
            }
        }
        match (candidate, &self.min, &self.max) {
            (ControlValue::Bool(v), ControlValue::Bool(min), ControlValue::Bool(max)) => {
                (!*v || *max) && (*v || !*min)
            },
            (ControlValue::Int(v), ControlValue::Int(min), ControlValue::Int(max)) => {
                if !(*v >= *min && *v <= *max) {
                    return false;
                }
                if let Some(ControlValue::Int(step)) = &self.step {
                    if *step > 0 {
                        let offset: i64 = (*v as i64) - (*min as i64);
                        return offset % (*step as i64) == 0;
                    }
                }
                true
            },
            (ControlValue::Uint(v), ControlValue::Uint(min), ControlValue::Uint(max)) => {
                if !(*v >= *min && *v <= *max) {
                    return false;
                }
                if let Some(ControlValue::Uint(step)) = &self.step {
                    if *step > 0 {
                        return (*v - *min) % *step == 0;
                    }
                }
                true
            },
            (ControlValue::Float(v), ControlValue::Float(min), ControlValue::Float(max)) => {
                float_le(*min, *v) && float_le(*v, *max)
            },
            (ControlValue::Void, ControlValue::Void, ControlValue::Void) => true,
            _ => false,
        }
    }
}

} // verus!
