//! The state of the adaptive mixer: per-slot curves, masks per mood, target
//! curves per mode.
//!
//! A slot's curve maps the intensity to a gain. Its value is clipped to the
//! slot's bounds. The curves themselves are evaluated where there is
//! floating-point arithmetic; what is kept, bounded and chosen is here.
use vstd::prelude::*;

use crate::number::Real32;
use crate::number::ONE_BITS;
use crate::number::ZERO_BITS;

verus! {

/// Number of source slots.
pub const SLOT_COUNT: usize = 8;

/// Number of curve formulas.
pub const FORMULA_COUNT: usize = 9;

/// The bits of the value 2.
pub const TWO_BITS: u32 = 0x4000_0000;

/// The bits of the value 200, the ramp time of a new mixer in milliseconds.
pub const SMOOTH_BITS: u32 = 0x4348_0000;

#[derive(Debug, Clone, Copy, PartialEq, Eq, Structural)]
pub enum Mood {
    Dark,
    Neutral,
    Bright,
}

#[derive(Debug, Clone, Copy, PartialEq, Eq, Structural)]
pub enum Mode {
    Music,
    Locals,
    Globals,
    Combat,
}

impl Mood {
    /// The row of the mood in the masks.
    pub open spec fn row(self) -> int {
        match self {
            Mood::Dark => 0,
            Mood::Neutral => 1,
            Mood::Bright => 2,
        }
    }

    pub fn index(self) -> (r: usize)
        ensures
            r == self.row(),
            r < 3,
    {
        match self {
            Mood::Dark => 0,
            Mood::Neutral => 1,
            Mood::Bright => 2,
        }
    }

    pub fn label(self) -> (r: &'static str)
        ensures
            r@ == match self {
                Mood::Dark => "Dark"@,
                Mood::Neutral => "Neutral"@,
                Mood::Bright => "Bright"@,
            },
    {
        match self {
            Mood::Dark => "Dark",
            Mood::Neutral => "Neutral",
            Mood::Bright => "Bright",
        }
    }
}

impl Mode {
    /// The place of the mode among the target curves.
    pub open spec fn row(self) -> int {
        match self {
            Mode::Music => 0,
            Mode::Locals => 1,
            Mode::Globals => 2,
            Mode::Combat => 3,
        }
    }

    pub fn index(self) -> (r: usize)
        ensures
            r == self.row(),
            r < 4,
    {
        match self {
            Mode::Music => 0,
            Mode::Locals => 1,
            Mode::Globals => 2,
            Mode::Combat => 3,
        }
    }

    pub fn label(self) -> (r: &'static str)
        ensures
            r@ == match self {
                Mode::Music => "Music"@,
                Mode::Locals => "Locals"@,
                Mode::Globals => "Globals"@,
                Mode::Combat => "Combat"@,
            },
    {
        match self {
            Mode::Music => "Music",
            Mode::Locals => "Locals",
            Mode::Globals => "Globals",
            Mode::Combat => "Combat",
        }
    }
}

/// The curve parameters of one slot.
#[derive(Debug, Clone, Copy, PartialEq, Eq, Structural)]
pub struct SlotParams {
    pub steepness: Real32,
    pub deviation: Real32,
    /// Upper bound of the clip.
    pub maximum: Real32,
    /// Lower bound of the clip.
    pub minimum: Real32,
    pub original_level: Real32,
    /// 1 to 9.
    pub formula: u8,
}

/// One of the continuous fields of [`SlotParams`].
#[derive(Debug, Clone, Copy, PartialEq, Eq, Structural)]
pub enum SlotField {
    Steepness,
    Deviation,
    Maximum,
    Minimum,
    Original,
}

pub open spec fn zero() -> Real32 {
    Real32 { bits: ZERO_BITS }
}

pub open spec fn one() -> Real32 {
    Real32 { bits: ONE_BITS }
}

pub open spec fn two() -> Real32 {
    Real32 { bits: TWO_BITS }
}

impl SlotParams {
    /// The parameters with `field` set to `value`, held between zero and the
    /// field's upper bound: two for the maximum, one for the others. What is
    /// not a number becomes the upper bound.
    pub open spec fn with_field(self, field: SlotField, value: Real32) -> SlotParams {
        let v = value.clamped(zero(), two());
        match field {
            SlotField::Steepness => SlotParams { steepness: v.smaller(one()), ..self },
            SlotField::Deviation => SlotParams { deviation: v.smaller(one()), ..self },
            SlotField::Maximum => SlotParams { maximum: v.smaller(two()), ..self },
            SlotField::Minimum => SlotParams { minimum: v.smaller(one()), ..self },
            SlotField::Original => SlotParams { original_level: v.smaller(one()), ..self },
        }
    }

    pub fn set_field(&mut self, field: SlotField, value: Real32)
        ensures
            *final(self) == old(self).with_field(field, value),
    {
        let one = Real32 { bits: ONE_BITS };
        let two = Real32 { bits: TWO_BITS };
        let v = value.clamp(Real32 { bits: ZERO_BITS }, two);
        match field {
            SlotField::Steepness => self.steepness = v.min(one),
            SlotField::Deviation => self.deviation = v.min(one),
            SlotField::Maximum => self.maximum = v.min(two),
            SlotField::Minimum => self.minimum = v.min(one),
            SlotField::Original => self.original_level = v.min(one),
        }
    }

    /// A curve value raised to the minimum, then lowered to the maximum.
    pub open spec fn clipped(self, v: Real32) -> Real32 {
        v.larger(self.minimum).smaller(self.maximum)
    }

    /// Clip a curve value to the slot's bounds. A minimum above the maximum
    /// gives the maximum.
    pub fn clip(&self, v: Real32) -> (r: Real32)
        ensures
            r == self.clipped(v),
    {
        v.max(self.minimum).min(self.maximum)
    }
}

/// Parameters with a clip from zero to one.
pub open spec fn slot(steepness: u32, deviation: u32, level: u32, formula: u8) -> SlotParams {
    SlotParams {
        steepness: Real32 { bits: steepness },
        deviation: Real32 { bits: deviation },
        maximum: one(),
        minimum: zero(),
        original_level: Real32 { bits: level },
        formula,
    }
}

fn make_slot(steepness: u32, deviation: u32, level: u32, formula: u8) -> (r: SlotParams)
    ensures
        r == slot(steepness, deviation, level, formula),
{
    SlotParams {
        steepness: Real32 { bits: steepness },
        deviation: Real32 { bits: deviation },
        maximum: Real32 { bits: ONE_BITS },
        minimum: Real32 { bits: ZERO_BITS },
        original_level: Real32 { bits: level },
        formula,
    }
}

/// The parameters of a new slot.
pub open spec fn default_slot() -> SlotParams {
    slot(0x3e19_999a, 0x3db8_51ec, 0x3e9e_b852, 1)
}

impl Default for SlotParams {
    fn default() -> (r: Self)
        ensures
            r == default_slot(),
    {
        make_slot(0x3e19_999a, 0x3db8_51ec, 0x3e9e_b852, 1)
    }
}

/// The preset of a source for formula `i + 1`: its name and parameters.
pub open spec fn source_preset_of(i: int) -> (Seq<char>, SlotParams) {
    if i == 0 {
        ("F1"@, slot(0x3e19_999a, 0x3db8_51ec, 0x3e9e_b852, 1))
    } else if i == 1 {
        ("F2"@, slot(0x3f11_eb85, 0, 0x3e19_999a, 2))
    } else if i == 2 {
        ("F3"@, slot(0x3ea3_d70a, 0x3e6b_851f, 0x3f33_3333, 3))
    } else if i == 3 {
        ("F4"@, slot(0x3f1c_28f6, 0x3e42_8f5c, 0x3f80_0000, 4))
    } else if i == 4 {
        ("F5"@, slot(0x3ecc_cccd, 0x3ebd_70a4, 0x3f80_0000, 5))
    } else if i == 5 {
        ("F6"@, slot(0x3ef0_a3d7, 0x3ee6_6666, 0x3f80_0000, 6))
    } else if i == 6 {
        ("F7"@, slot(0x3e4c_cccd, 0x3e4c_cccd, 0x3f00_0000, 7))
    } else if i == 7 {
        ("F8"@, slot(0x3e99_999a, 0x3e99_999a, 0x3e4c_cccd, 8))
    } else {
        ("F9"@, slot(0x3ecc_cccd, 0x3f00_0000, 0x3f4c_cccd, 9))
    }
}

/// The bank of source presets, one for each formula.
pub fn source_preset(i: usize) -> (r: Option<(&'static str, SlotParams)>)
    ensures
        match r {
            Some((name, p)) => i < 9 && (name@, p) == source_preset_of(i as int),
            None => i >= 9,
        },
{
    if i == 0 {
        Some(("F1", make_slot(0x3e19_999a, 0x3db8_51ec, 0x3e9e_b852, 1)))
    } else if i == 1 {
        Some(("F2", make_slot(0x3f11_eb85, 0, 0x3e19_999a, 2)))
    } else if i == 2 {
        Some(("F3", make_slot(0x3ea3_d70a, 0x3e6b_851f, 0x3f33_3333, 3)))
    } else if i == 3 {
        Some(("F4", make_slot(0x3f1c_28f6, 0x3e42_8f5c, 0x3f80_0000, 4)))
    } else if i == 4 {
        Some(("F5", make_slot(0x3ecc_cccd, 0x3ebd_70a4, 0x3f80_0000, 5)))
    } else if i == 5 {
        Some(("F6", make_slot(0x3ef0_a3d7, 0x3ee6_6666, 0x3f80_0000, 6)))
    } else if i == 6 {
        Some(("F7", make_slot(0x3e4c_cccd, 0x3e4c_cccd, 0x3f00_0000, 7)))
    } else if i == 7 {
        Some(("F8", make_slot(0x3e99_999a, 0x3e99_999a, 0x3e4c_cccd, 8)))
    } else if i == 8 {
        Some(("F9", make_slot(0x3ecc_cccd, 0x3f00_0000, 0x3f4c_cccd, 9)))
    } else {
        None
    }
}

/// The target curve of a mode in a new mixer.
pub open spec fn target_preset_of(mode: Mode) -> SlotParams {
    match mode {
        Mode::Music => slot(0x3e4c_cccd, 0x3f00_0000, 0x3f00_0000, 7),
        Mode::Locals => slot(0x3e4c_cccd, 0x3eb3_3333, 0x3f02_8f5c, 7),
        Mode::Globals => slot(0x3e4c_cccd, 0x3e80_0000, 0x3f02_8f5c, 7),
        Mode::Combat => slot(0x3dcc_cccd, 0x3f00_0000, 0x3f05_1eb8, 7),
    }
}

/// The target curve of a mode in a new mixer.
pub fn target_preset(mode: Mode) -> (r: SlotParams)
    ensures
        r == target_preset_of(mode),
{
    match mode {
        Mode::Music => make_slot(0x3e4c_cccd, 0x3f00_0000, 0x3f00_0000, 7),
        Mode::Locals => make_slot(0x3e4c_cccd, 0x3eb3_3333, 0x3f02_8f5c, 7),
        Mode::Globals => make_slot(0x3e4c_cccd, 0x3e80_0000, 0x3f02_8f5c, 7),
        Mode::Combat => make_slot(0x3dcc_cccd, 0x3f00_0000, 0x3f05_1eb8, 7),
    }
}

/// The settings of the mixer and the values it showed last.
#[derive(Debug)]
pub struct AdaptiveMixer {
    pub enabled: bool,
    /// 0 to 1.
    pub intensity: Real32,
    pub mood: Mood,
    pub mode: Mode,
    /// Ramp time.
    pub smooth_ms: Real32,
    pub activate_target_curve: bool,
    pub slot_params: [SlotParams; 8],
    /// Per mood and slot: the weight in the slot's curve.
    pub mood_weight: [[Real32; 8]; 3],
    /// Per mood and slot: the weight in the power sum.
    pub balancer_mask: [[Real32; 8]; 3],
    /// Per mode: the loudness curve that the mix is held to.
    pub target_curve: [SlotParams; 4],
    pub last_power_sum: Real32,
    pub last_factor: Real32,
    pub last_target: Real32,
}

/// The contents of an [`AdaptiveMixer`].
#[verifier::ext_equal]
pub struct MixerView {
    pub enabled: bool,
    pub intensity: Real32,
    pub mood: Mood,
    pub mode: Mode,
    pub smooth_ms: Real32,
    pub activate_target_curve: bool,
    pub slot_params: Seq<SlotParams>,
    pub mood_weight: Seq<Seq<Real32>>,
    pub balancer_mask: Seq<Seq<Real32>>,
    pub target_curve: Seq<SlotParams>,
    pub last_power_sum: Real32,
    pub last_factor: Real32,
    pub last_target: Real32,
}

/// The rows of a mask.
pub open spec fn rows(m: [[Real32; 8]; 3]) -> Seq<Seq<Real32>> {
    Seq::new(3, |i: int| m@[i]@)
}

impl View for AdaptiveMixer {
    type V = MixerView;

    open spec fn view(&self) -> MixerView {
        MixerView {
            enabled: self.enabled,
            intensity: self.intensity,
            mood: self.mood,
            mode: self.mode,
            smooth_ms: self.smooth_ms,
            activate_target_curve: self.activate_target_curve,
            slot_params: self.slot_params@,
            mood_weight: rows(self.mood_weight),
            balancer_mask: rows(self.balancer_mask),
            target_curve: self.target_curve@,
            last_power_sum: self.last_power_sum,
            last_factor: self.last_factor,
            last_target: self.last_target,
        }
    }
}

/// A mixer as it is at first.
pub open spec fn new_mixer() -> MixerView {
    MixerView {
        enabled: false,
        intensity: zero(),
        mood: Mood::Neutral,
        mode: Mode::Music,
        smooth_ms: Real32 { bits: SMOOTH_BITS },
        activate_target_curve: true,
        slot_params: Seq::new(8, |i: int| default_slot()),
        mood_weight: Seq::new(3, |i: int| Seq::new(8, |j: int| one())),
        balancer_mask: Seq::new(3, |i: int| Seq::new(8, |j: int| one())),
        target_curve: seq![
            target_preset_of(Mode::Music),
            target_preset_of(Mode::Locals),
            target_preset_of(Mode::Globals),
            target_preset_of(Mode::Combat),
        ],
        last_power_sum: zero(),
        last_factor: one(),
        last_target: one(),
    }
}

fn ones() -> (r: [[Real32; 8]; 3])
    ensures
        rows(r) =~~= Seq::new(3, |i: int| Seq::new(8, |j: int| one())),
{
    let x = Real32 { bits: ONE_BITS };
    let row = [x, x, x, x, x, x, x, x];
    [row, row, row]
}

impl AdaptiveMixer {
    pub fn new() -> (r: Self)
        ensures
            r@ == new_mixer(),
    {
        let p = SlotParams::default();
        let r = AdaptiveMixer {
            enabled: false,
            intensity: Real32 { bits: ZERO_BITS },
            mood: Mood::Neutral,
            mode: Mode::Music,
            smooth_ms: Real32 { bits: SMOOTH_BITS },
            activate_target_curve: true,
            slot_params: [p, p, p, p, p, p, p, p],
            mood_weight: ones(),
            balancer_mask: ones(),
            target_curve: [
                target_preset(Mode::Music),
                target_preset(Mode::Locals),
                target_preset(Mode::Globals),
                target_preset(Mode::Combat),
            ],
            last_power_sum: Real32 { bits: ZERO_BITS },
            last_factor: Real32 { bits: ONE_BITS },
            last_target: Real32 { bits: ONE_BITS },
        };
        assert(r@.slot_params =~= new_mixer().slot_params);
        assert(r@.target_curve =~= new_mixer().target_curve);
        assert(r@.mood_weight =~~= new_mixer().mood_weight);
        assert(r@.balancer_mask =~~= new_mixer().balancer_mask);
        r
    }

    pub fn is_enabled(&self) -> (r: bool)
        ensures
            r == self@.enabled,
    {
        self.enabled
    }

    /// Switch the mixer on or off. Its clock is kept where it runs.
    pub fn set_enabled(&mut self, on: bool)
        ensures
            final(self)@ == (MixerView { enabled: on, ..old(self)@ }),
    {
        self.enabled = on;
    }
}

impl Default for AdaptiveMixer {
    fn default() -> (r: Self)
        ensures
            r@ == new_mixer(),
    {
        AdaptiveMixer::new()
    }
}

/// Setting a field leaves it between zero and its upper bound, whatever value
/// is given, and leaves the other fields and the formula alone.
pub proof fn set_field_stays_in_bounds(p: SlotParams, value: Real32)
    ensures
        zero().at_most(p.with_field(SlotField::Steepness, value).steepness),
        p.with_field(SlotField::Steepness, value).steepness.at_most(one()),
        zero().at_most(p.with_field(SlotField::Deviation, value).deviation),
        p.with_field(SlotField::Deviation, value).deviation.at_most(one()),
        zero().at_most(p.with_field(SlotField::Maximum, value).maximum),
        p.with_field(SlotField::Maximum, value).maximum.at_most(two()),
        zero().at_most(p.with_field(SlotField::Minimum, value).minimum),
        p.with_field(SlotField::Minimum, value).minimum.at_most(one()),
        zero().at_most(p.with_field(SlotField::Original, value).original_level),
        p.with_field(SlotField::Original, value).original_level.at_most(one()),
{
}

/// A clipped value lies between the bounds where those are in order, and is
/// the maximum where they are not.
pub proof fn clip_stays_in_bounds(p: SlotParams, v: Real32)
    requires
        !p.minimum.nan(),
        !p.maximum.nan(),
    ensures
        p.clipped(v).at_most(p.maximum),
        p.minimum.at_most(p.maximum) ==> p.minimum.at_most(p.clipped(v)),
        p.maximum.below(p.minimum) ==> p.clipped(v) == p.maximum,
{
}

} // verus!
