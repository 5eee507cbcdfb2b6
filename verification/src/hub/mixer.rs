//! What the controls of the adaptive mixer do.
use vstd::prelude::*;

use crate::adaptive::one;
use crate::adaptive::source_preset;
use crate::adaptive::source_preset_of;
use crate::adaptive::target_preset;
use crate::adaptive::target_preset_of;
use crate::adaptive::zero;
use crate::adaptive::AdaptiveMixer;
use crate::adaptive::MixerView;
use crate::adaptive::Mode;
use crate::adaptive::Mood;
use crate::adaptive::SlotField;
use crate::adaptive::SlotParams;
use crate::number::Real32;
use crate::number::ONE_BITS;
use crate::number::ZERO_BITS;
use crate::text::same;

verus! {

/// The bits of the longest ramp, in milliseconds.
pub const SMOOTH_MAX_BITS: u32 = 0x459c_4000;

/// A control of the adaptive mixer was moved.
#[derive(Debug)]
pub enum MixerEvent {
    Enable(bool),
    SetIntensity(Real32),
    SetMood(Mood),
    SetMode(Mode),
    SetSmoothMs(Real32),
    ActivateTargetCurve(bool),
    SetSlotField(usize, SlotField, Real32),
    /// Step the formula of a slot.
    SetSlotFormula(usize, i32),
    SetTargetCurveField(Mode, SlotField, Real32),
    /// Step the formula of the target curve of a mode.
    SetTargetCurveFormula(Mode, i32),
    SetMoodWeight(Mood, usize, Real32),
    SetBalancerMask(Mood, usize, Real32),
    /// Give a slot the preset with this name.
    ApplySourcePreset(usize, String),
    ResetTargetCurveToPreset(Mode),
}

/// The formula `delta` steps on, held in 1 to 9.
pub open spec fn stepped(formula: u8, delta: i32) -> u8 {
    let n = formula + delta;
    (if n < 1 {
        1
    } else if n > 9 {
        9
    } else {
        n
    }) as u8
}

/// The step does not lead out of 32 bits.
pub open spec fn step_fits(m: MixerView, e: MixerEvent) -> bool {
    match e {
        MixerEvent::SetSlotFormula(slot, delta) => slot < 8 ==> m.slot_params[slot as int].formula
            + delta <= i32::MAX,
        MixerEvent::SetTargetCurveFormula(mode, delta) => m.target_curve[mode.row()].formula
            + delta <= i32::MAX,
        _ => true,
    }
}

/// Whether a mixer event leads to no formula that does not fit.
pub(crate) fn step_goes(m: &AdaptiveMixer, e: &MixerEvent) -> (r: bool)
    ensures
        r == step_fits(m@, *e),
{
    match e {
        MixerEvent::SetSlotFormula(slot, delta) => *slot >= 8 || m.slot_params[*slot].formula as i64
            + *delta as i64 <= i32::MAX as i64,
        MixerEvent::SetTargetCurveFormula(mode, delta) => m.target_curve[mode.index()].formula
            as i64 + *delta as i64 <= i32::MAX as i64,
        _ => true,
    }
}

/// `label` is the name of the preset `i`, and of none before it.
pub open spec fn preset_at(label: Seq<char>, i: int) -> bool {
    &&& 0 <= i < 9
    &&& source_preset_of(i).0 == label
    &&& forall|k: int| 0 <= k < i ==> (#[trigger] source_preset_of(k)).0 != label
}

/// The preset with the name `label`.
pub open spec fn preset_named(label: Seq<char>) -> Option<SlotParams> {
    if exists|i: int| preset_at(label, i) {
        Some(source_preset_of(choose|i: int| preset_at(label, i)).1)
    } else {
        None
    }
}

/// The cell of a mask with a new value, held between zero and one.
pub open spec fn with_cell(rows: Seq<Seq<Real32>>, k: int, slot: int, value: Real32) -> Seq<
    Seq<Real32>,
> {
    if 0 <= slot < 8 {
        rows.update(k, rows[k].update(slot, value.clamped(zero(), one())))
    } else {
        rows
    }
}

/// The mixer after a control was moved. What is not there stays so.
pub open spec fn mixer_after(m: MixerView, e: MixerEvent) -> MixerView {
    match e {
        MixerEvent::Enable(on) => MixerView { enabled: on, ..m },
        MixerEvent::SetIntensity(v) => MixerView { intensity: v.clamped(zero(), one()), ..m },
        MixerEvent::SetMood(mood) => MixerView { mood, ..m },
        MixerEvent::SetMode(mode) => MixerView { mode, ..m },
        MixerEvent::SetSmoothMs(v) => MixerView {
            smooth_ms: v.clamped(one(), Real32 { bits: SMOOTH_MAX_BITS }),
            ..m
        },
        MixerEvent::ActivateTargetCurve(on) => MixerView { activate_target_curve: on, ..m },
        MixerEvent::SetSlotField(slot, field, v) => if slot < 8 {
            MixerView {
                slot_params: m.slot_params.update(
                    slot as int,
                    m.slot_params[slot as int].with_field(field, v),
                ),
                ..m
            }
        } else {
            m
        },
        MixerEvent::SetSlotFormula(slot, delta) => if slot < 8 {
            let p = m.slot_params[slot as int];
            MixerView {
                slot_params: m.slot_params.update(
                    slot as int,
                    SlotParams { formula: stepped(p.formula, delta), ..p },
                ),
                ..m
            }
        } else {
            m
        },
        MixerEvent::SetTargetCurveField(mode, field, v) => MixerView {
            target_curve: m.target_curve.update(
                mode.row(),
                m.target_curve[mode.row()].with_field(field, v),
            ),
            ..m
        },
        MixerEvent::SetTargetCurveFormula(mode, delta) => {
            let p = m.target_curve[mode.row()];
            MixerView {
                target_curve: m.target_curve.update(
                    mode.row(),
                    SlotParams { formula: stepped(p.formula, delta), ..p },
                ),
                ..m
            }
        },
        MixerEvent::SetMoodWeight(mood, slot, v) => MixerView {
            mood_weight: with_cell(m.mood_weight, mood.row(), slot as int, v),
            ..m
        },
        MixerEvent::SetBalancerMask(mood, slot, v) => MixerView {
            balancer_mask: with_cell(m.balancer_mask, mood.row(), slot as int, v),
            ..m
        },
        MixerEvent::ApplySourcePreset(slot, label) => match preset_named(label@) {
            Some(p) => if slot < 8 {
                MixerView { slot_params: m.slot_params.update(slot as int, p), ..m }
            } else {
                m
            },
            None => m,
        },
        MixerEvent::ResetTargetCurveToPreset(mode) => MixerView {
            target_curve: m.target_curve.update(mode.row(), target_preset_of(mode)),
            ..m
        },
    }
}

fn step_formula(formula: u8, delta: i32) -> (r: u8)
    requires
        formula + delta <= i32::MAX,
    ensures
        r == stepped(formula, delta),
{
    let n: i32 = formula as i32 + delta;
    if n < 1 {
        1
    } else if n > 9 {
        9
    } else {
        n as u8
    }
}

/// The source preset with the name `label`.
pub fn find_preset(label: &str) -> (r: Option<SlotParams>)
    ensures
        r == preset_named(label@),
{
    let mut i: usize = 0;
    while i < 9
        invariant
            0 <= i <= 9,
            forall|k: int| 0 <= k < i ==> (#[trigger] source_preset_of(k)).0 != label@,
        decreases 9 - i,
    {
        match source_preset(i) {
            Some((name, p)) => {
                if same(name, label) {
                    proof {
                        assert(preset_at(label@, i as int));
                        let k = choose|k: int| preset_at(label@, k);
                        assert(k == i) by {
                            if k < i {
                                assert(source_preset_of(k).0 != label@);
                            }
                            if i < k {
                                assert(source_preset_of(i as int).0 != label@);
                            }
                        }
                    }
                    return Some(p);
                }
            },
            None => {},
        }
        i += 1;
    }
    None
}

fn set_cell(rows: &mut [[Real32; 8]; 3], k: usize, slot: usize, value: Real32)
    requires
        k < 3,
    ensures
        crate::adaptive::rows(*final(rows)) == with_cell(
            crate::adaptive::rows(*old(rows)),
            k as int,
            slot as int,
            value,
        ),
{
    if slot < 8 {
        let mut next: [[Real32; 8]; 3] = *rows;
        let mut row: [Real32; 8] = next[k];
        row[slot] = value.clamp(Real32 { bits: ZERO_BITS }, Real32 { bits: ONE_BITS });
        next[k] = row;
        *rows = next;
        proof {
            let before = crate::adaptive::rows(*old(rows));
            let after = crate::adaptive::rows(*rows);
            assert(before[k as int] == old(rows)@[k as int]@);
            assert(after =~= before.update(k as int, row@));
        }
    }
}

impl AdaptiveMixer {
    /// Move a control.
    pub fn apply(&mut self, e: MixerEvent)
        requires
            step_fits(old(self)@, e),
        ensures
            final(self)@ == mixer_after(old(self)@, e),
    {
        let ghost o = self@;
        match e {
            MixerEvent::Enable(on) => {
                self.enabled = on;
            },
            MixerEvent::SetIntensity(v) => {
                self.intensity = v.clamp(Real32 { bits: ZERO_BITS }, Real32 { bits: ONE_BITS });
            },
            MixerEvent::SetMood(mood) => {
                self.mood = mood;
            },
            MixerEvent::SetMode(mode) => {
                self.mode = mode;
            },
            MixerEvent::SetSmoothMs(v) => {
                self.smooth_ms = v.clamp(
                    Real32 { bits: ONE_BITS },
                    Real32 { bits: SMOOTH_MAX_BITS },
                );
            },
            MixerEvent::ActivateTargetCurve(on) => {
                self.activate_target_curve = on;
            },
            MixerEvent::SetSlotField(slot, field, v) => {
                if slot < 8 {
                    let mut p = self.slot_params[slot];
                    p.set_field(field, v);
                    self.slot_params[slot] = p;
                }
            },
            MixerEvent::SetSlotFormula(slot, delta) => {
                if slot < 8 {
                    let mut p = self.slot_params[slot];
                    p.formula = step_formula(p.formula, delta);
                    self.slot_params[slot] = p;
                }
            },
            MixerEvent::SetTargetCurveField(mode, field, v) => {
                let k: usize = mode.index();
                let mut p = self.target_curve[k];
                p.set_field(field, v);
                self.target_curve[k] = p;
            },
            MixerEvent::SetTargetCurveFormula(mode, delta) => {
                let k: usize = mode.index();
                let mut p = self.target_curve[k];
                p.formula = step_formula(p.formula, delta);
                self.target_curve[k] = p;
            },
            MixerEvent::SetMoodWeight(mood, slot, v) => {
                set_cell(&mut self.mood_weight, mood.index(), slot, v);
            },
            MixerEvent::SetBalancerMask(mood, slot, v) => {
                set_cell(&mut self.balancer_mask, mood.index(), slot, v);
            },
            MixerEvent::ApplySourcePreset(slot, label) => {
                if let Some(p) = find_preset(label.as_str()) {
                    if slot < 8 {
                        self.slot_params[slot] = p;
                    }
                }
            },
            MixerEvent::ResetTargetCurveToPreset(mode) => {
                let k: usize = mode.index();
                self.target_curve[k] = target_preset(mode);
            },
        }
        assert(self@ =~= mixer_after(o, e));
    }
}

// Laws.

/// However a formula is stepped, it is one of the nine; back and forth within
/// them it comes back.
pub proof fn stepped_formula_is_one_of_nine(formula: u8, delta: i32)
    ensures
        1 <= stepped(formula, delta) <= 9,
        1 <= formula <= 9 && 1 <= formula + delta <= 9 && delta > i32::MIN ==> stepped(
            stepped(formula, delta),
            (-delta) as i32,
        ) == formula,
{
}

/// Moving a control of the masks touches one cell.
pub proof fn mask_control_touches_one_cell(
    rows: Seq<Seq<Real32>>,
    k: int,
    slot: int,
    value: Real32,
    i: int,
    j: int,
)
    requires
        0 <= k < rows.len(),
        0 <= i < rows.len(),
        (i, j) != (k, slot),
        0 <= slot < rows[k].len(),
        0 <= j < rows[i].len(),
    ensures
        with_cell(rows, k, slot, value)[i][j] == rows[i][j],
{
}

} // verus!
