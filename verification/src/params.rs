//! Mix controls of the sources.
use vstd::prelude::*;

use crate::number::Real32;

verus! {

/// The bits of the lowest gain, in decibels.
pub const GAIN_DB_MIN_BITS: u32 = 0xc270_0000;

/// The bits of the highest gain, in decibels.
pub const GAIN_DB_MAX_BITS: u32 = 0x4140_0000;

/// A gain in decibels, held in its bounds.
pub fn clamp_gain_db(db: Real32) -> (r: Real32)
    ensures
        r == db.clamped(Real32 { bits: GAIN_DB_MIN_BITS }, Real32 { bits: GAIN_DB_MAX_BITS }),
{
    db.clamp(Real32 { bits: GAIN_DB_MIN_BITS }, Real32 { bits: GAIN_DB_MAX_BITS })
}

/// The mix controls of one source.
#[derive(Debug, Clone, Copy, PartialEq, Eq, Structural)]
pub struct SourceMix {
    pub gain: Real32,
    pub muted: bool,
    pub soloed: bool,
    pub inverted: bool,
}

/// Some source is soloed.
pub open spec fn some_soloed(mixes: Seq<SourceMix>) -> bool {
    exists|i: int| 0 <= i < mixes.len() && (#[trigger] mixes[i]).soloed
}

/// The source is heard: it is not muted, and where any is soloed, it is.
pub open spec fn heard(mixes: Seq<SourceMix>, s: int) -> bool {
    !mixes[s].muted && (some_soloed(mixes) ==> mixes[s].soloed)
}

/// Whether any source is soloed.
pub fn any_soloed(mixes: &[SourceMix]) -> (r: bool)
    ensures
        r == some_soloed(mixes@),
{
    let mut i: usize = 0;
    while i < mixes.len()
        invariant
            0 <= i <= mixes@.len(),
            forall|k: int| 0 <= k < i ==> !(#[trigger] mixes@[k]).soloed,
        decreases mixes@.len() - i,
    {
        if mixes[i].soloed {
            return true;
        }
        i += 1;
    }
    false
}

/// Whether source `s` is heard, given whether any source is soloed.
pub fn is_heard(mixes: &[SourceMix], any_solo: bool, s: usize) -> (r: bool)
    requires
        s < mixes@.len(),
        any_solo == some_soloed(mixes@),
    ensures
        r == heard(mixes@, s as int),
{
    !(mixes[s].muted || (any_solo && !mixes[s].soloed))
}

// Laws.

/// A gain in decibels that is a number is held between the lowest and the
/// highest.
pub proof fn gain_stays_in_bounds(db: Real32)
    requires
        !db.nan(),
    ensures
        ({
            let r = db.clamped(
                Real32 { bits: GAIN_DB_MIN_BITS },
                Real32 { bits: GAIN_DB_MAX_BITS },
            );
            &&& (Real32 { bits: GAIN_DB_MIN_BITS }).at_most(r)
            &&& r.at_most(Real32 { bits: GAIN_DB_MAX_BITS })
        }),
{
    crate::number::clamp_stays_in_bounds(
        db,
        Real32 { bits: GAIN_DB_MIN_BITS },
        Real32 { bits: GAIN_DB_MAX_BITS },
    );
}

/// Muting a source silences it and no other.
pub proof fn mute_silences_only_that_source(mixes: Seq<SourceMix>, s: int)
    requires
        0 <= s < mixes.len(),
        !mixes[s].muted,
    ensures
        ({
            let after = mixes.update(s, SourceMix { muted: true, ..mixes[s] });
            &&& !heard(after, s)
            &&& forall|k: int|
                0 <= k < mixes.len() && k != s ==> #[trigger] heard(after, k) == heard(mixes, k)
        }),
{
    let after = mixes.update(s, SourceMix { muted: true, ..mixes[s] });
    if some_soloed(mixes) {
        let i = choose|i: int| 0 <= i < mixes.len() && (#[trigger] mixes[i]).soloed;
        assert(after[i].soloed);
    }
    if some_soloed(after) {
        let i = choose|i: int| 0 <= i < after.len() && (#[trigger] after[i]).soloed;
        assert(mixes[i].soloed);
    }
}

/// Soloing a source that is not muted leaves it heard, and no source that is
/// not soloed.
pub proof fn solo_gates_the_others(mixes: Seq<SourceMix>, s: int)
    requires
        0 <= s < mixes.len(),
        !mixes[s].muted,
    ensures
        ({
            let after = mixes.update(s, SourceMix { soloed: true, ..mixes[s] });
            &&& heard(after, s)
            &&& forall|k: int|
                0 <= k < mixes.len() && k != s && !mixes[k].soloed ==> !(#[trigger] heard(
                    after,
                    k,
                ))
        }),
{
    let after = mixes.update(s, SourceMix { soloed: true, ..mixes[s] });
    assert(after[s].soloed);
}

} // verus!
