//! What is kept of a recorded take.
use vstd::prelude::*;

use crate::number::Real32;

verus! {

/// One recorded take: the sources that were armed, and the grid it was
/// recorded against.
#[derive(Debug)]
pub struct TakeState {
    pub armed: Vec<usize>,
    pub start_pulses: u64,
    pub bpm: Real32,
    pub time_sig_num: u32,
    pub take_user_offset_units: Real32,
}

/// The contents of a [`TakeState`].
#[verifier::ext_equal]
pub struct TakeView {
    pub armed: Seq<usize>,
    pub start_pulses: u64,
    pub bpm: Real32,
    pub time_sig_num: u32,
    pub take_user_offset_units: Real32,
}

impl View for TakeState {
    type V = TakeView;

    open spec fn view(&self) -> TakeView {
        TakeView {
            armed: self.armed@,
            start_pulses: self.start_pulses,
            bpm: self.bpm,
            time_sig_num: self.time_sig_num,
            take_user_offset_units: self.take_user_offset_units,
        }
    }
}

impl Clone for TakeState {
    fn clone(&self) -> (r: Self)
        ensures
            r@ == self@,
    {
        TakeState {
            armed: self.armed.clone(),
            start_pulses: self.start_pulses,
            bpm: self.bpm,
            time_sig_num: self.time_sig_num,
            take_user_offset_units: self.take_user_offset_units,
        }
    }
}

} // verus!
