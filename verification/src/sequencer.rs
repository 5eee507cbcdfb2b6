//! The playback state machine that walks the graph Intro, Main, Outro.
//!
//! Given the lengths and transition regions of sections,
//! [`Sequencer::advance`] reports which sections sound at the current frame
//! and by which fade each is shaped. The audio layer maps that [`Mix`] onto
//! samples.
//!
//! A transition from A to B is anchored at one instant at which both clips
//! are at full level: A at the sync point of its out-region, B at that of its
//! in-region. B starts early, so that its fade-in is done at that instant; A
//! fades out after it.
//!
//! - Intro plays once and goes over into Main at its out-region.
//! - Main loops until an exit is asked for, which goes over into Outro at the
//!   next out-region, or to silence where there is no Outro.
//! - Outro plays once and ends.
use vstd::prelude::*;

use crate::navigator::model::FadeLevel;
use crate::navigator::model::Region;
use crate::navigator::model::SectionKind;
use crate::number::Real32;
use crate::number::HALF_BITS;
use crate::number::ZERO_BITS;
use crate::seqs::first_index;
use crate::seqs::is_first;
use crate::seqs::lemma_first_index;
use crate::seqs::lemma_first_index_found;

verus! {

/// One section's playback geometry.
#[derive(Debug)]
pub struct AdaptiveSection {
    pub kind: SectionKind,
    /// Total length in frames.
    pub length: u64,
    /// Loop window (begin, end) in frames; none to play once.
    pub loop_range: Option<(u64, u64)>,
    pub in_regions: Vec<Region>,
    pub out_regions: Vec<Region>,
}

/// The contents of an [`AdaptiveSection`].
#[verifier::ext_equal]
pub struct SectionShape {
    pub kind: SectionKind,
    pub length: u64,
    pub loop_range: Option<(u64, u64)>,
    pub in_regions: Seq<Region>,
    pub out_regions: Seq<Region>,
}

impl View for AdaptiveSection {
    type V = SectionShape;

    open spec fn view(&self) -> SectionShape {
        SectionShape {
            kind: self.kind,
            length: self.length,
            loop_range: self.loop_range,
            in_regions: self.in_regions@,
            out_regions: self.out_regions@,
        }
    }
}

/// The region begins after `head`.
pub open spec fn begins_after(head: u64) -> spec_fn(Region) -> bool {
    |r: Region| r.begin_frames > head
}

impl SectionShape {
    /// The region by which the section is entered: its first in-region, else
    /// an empty one at frame zero.
    pub open spec fn entry_region(self) -> Region {
        if self.in_regions.len() > 0 {
            self.in_regions[0]
        } else {
            Region::entry(0, 0, Real32 { bits: ZERO_BITS }, Real32 { bits: HALF_BITS })
        }
    }

    /// The region by which the section is left from `head`: the first that
    /// begins after it, else the last, else an empty one at the end.
    pub open spec fn exit_region(self, head: u64) -> Region {
        match first_index(self.out_regions, begins_after(head)) {
            Some(i) => self.out_regions[i],
            None => if self.out_regions.len() > 0 {
                self.out_regions.last()
            } else {
                Region::exit(
                    self.length,
                    self.length,
                    Real32 { bits: ZERO_BITS },
                    Real32 { bits: HALF_BITS },
                )
            },
        }
    }
}

impl AdaptiveSection {
    fn entry_region(&self) -> (r: Region)
        ensures
            r == self@.entry_region(),
    {
        if self.in_regions.len() > 0 {
            self.in_regions[0]
        } else {
            Region::new_in(0, 0, Real32 { bits: ZERO_BITS }, Real32 { bits: HALF_BITS })
        }
    }

    fn exit_region(&self, head: u64) -> (r: Region)
        ensures
            r == self@.exit_region(head),
    {
        let ghost f = begins_after(head);
        let mut i: usize = 0;
        while i < self.out_regions.len()
            invariant
                0 <= i <= self.out_regions@.len(),
                f == begins_after(head),
                forall|j: int| 0 <= j < i ==> !f(#[trigger] self.out_regions@[j]),
            decreases self.out_regions@.len() - i,
        {
            if self.out_regions[i].begin_frames > head {
                proof {
                    lemma_first_index(self.out_regions@, f, i as int);
                }
                return self.out_regions[i];
            }
            i += 1;
        }
        let n: usize = self.out_regions.len();
        if n > 0 {
            self.out_regions[n - 1]
        } else {
            Region::new_out(
                self.length,
                self.length,
                Real32 { bits: ZERO_BITS },
                Real32 { bits: HALF_BITS },
            )
        }
    }
}

/// How a voice is shaped at its frame.
#[derive(Debug, Clone, Copy, PartialEq, Eq, Structural)]
pub enum Gain {
    /// Full level.
    Unity,
    /// By the fade-in of a region.
    FadeIn { region: Region },
    /// By the fade-out of a region.
    FadeOut { region: Region },
}

/// A sounding voice: which section, its local playhead, and its gain.
#[derive(Debug, Clone, Copy, PartialEq, Eq, Structural)]
pub struct Voice {
    pub section: usize,
    pub frame: u64,
    pub gain: Gain,
}

/// What sounds: `a` is the primary or outgoing voice, `b` the incoming one
/// during a cross.
#[derive(Debug, Clone, Copy, PartialEq, Eq, Structural)]
pub struct Mix {
    pub a: Option<Voice>,
    pub b: Option<Voice>,
}

/// Nothing sounds.
pub open spec fn silence() -> Mix {
    Mix { a: None, b: None }
}

impl Default for Mix {
    fn default() -> (r: Self)
        ensures
            r == silence(),
    {
        Mix { a: None, b: None }
    }
}

impl Mix {
    /// The outgoing voice is past its sync point.
    pub open spec fn outgoing_is_late(self) -> bool {
        self.a matches Some(v) && v.gain matches Gain::FadeOut { region } && v.frame
            > region.sync_frames
    }

    /// The mix as it is heard, given whether the outgoing fade leaves
    /// anything at this frame: a silent outgoing voice is dropped once it is
    /// past its sync point.
    pub fn settle(self, outgoing_sounds: bool) -> (r: Mix)
        ensures
            r.b == self.b,
            r.a == if !outgoing_sounds && self.outgoing_is_late() {
                None
            } else {
                self.a
            },
    {
        match self.a {
            Some(v) => match v.gain {
                Gain::FadeOut { region } => if !outgoing_sounds && v.frame > region.sync_frames {
                    Mix { a: None, b: self.b }
                } else {
                    self
                },
                _ => self,
            },
            None => self,
        }
    }
}

/// The section that an exit leads into, by which of its regions.
#[derive(Debug, Clone, Copy, PartialEq, Eq, Structural)]
pub struct Entry {
    pub section: usize,
    pub region: Region,
}

/// An exit that waits for its out-region.
#[derive(Debug, Clone, Copy, PartialEq, Eq, Structural)]
pub struct PendingExit {
    pub out: Region,
    /// Where it leads; none to end in silence.
    pub to: Option<Entry>,
}

/// The incoming section of a cross.
#[derive(Debug, Clone, Copy, PartialEq, Eq, Structural)]
pub struct Incoming {
    pub section: usize,
    pub head: u64,
    pub region: Region,
}

/// Where playback stands.
#[derive(Debug, Clone, Copy, PartialEq, Eq, Structural)]
pub enum Phase {
    Idle,
    Playing { sec: usize, head: u64, pending: Option<PendingExit> },
    Crossing { from: usize, from_head: u64, from_out: Region, to: Option<Incoming> },
}

/// The contents of a [`Sequencer`].
#[verifier::ext_equal]
pub struct SequencerView {
    pub sections: Seq<SectionShape>,
    pub phase: Phase,
}

/// `head` moved on by `n`, wrapped into the loop window where there is one.
pub open spec fn moved_head(head: int, n: int, loop_range: Option<(u64, u64)>) -> int {
    let next = head + n;
    match loop_range {
        Some((begin, end)) => if end > begin && next >= end {
            begin + (next - end) % (end - begin)
        } else {
            next
        },
        None => next,
    }
}

impl PendingExit {
    /// Frames from the start of the entered section's in-region to its sync
    /// point.
    pub open spec fn lead(self) -> int {
        match self.to {
            Some(e) => if e.region.sync_frames >= e.region.begin_frames {
                e.region.sync_frames - e.region.begin_frames
            } else {
                0
            },
            None => 0,
        }
    }

    /// The frame of the left section at which the cross begins: so early that
    /// the in-region is played up to its sync point, where there is room.
    pub open spec fn start(self) -> int {
        if self.out.sync_frames >= self.lead() {
            self.out.sync_frames - self.lead()
        } else {
            0
        }
    }

    /// The incoming section when the left one is at `head`: as far from its
    /// sync point.
    pub open spec fn incoming(self, head: int) -> Option<Incoming> {
        match self.to {
            Some(e) => Some(
                Incoming {
                    section: e.section,
                    head: (e.region.sync_frames + (head - self.out.sync_frames)) as u64,
                    region: e.region,
                },
            ),
            None => None,
        }
    }

    /// The incoming section's playhead fits when the left one is at `head`.
    pub open spec fn incoming_fits(self, head: int) -> bool {
        self.to matches Some(e) ==> e.region.sync_frames + (head - self.out.sync_frames)
            <= u64::MAX
    }
}

/// The voice of a section that plays alone.
pub open spec fn solo(sec: usize, head: u64) -> Mix {
    Mix { a: Some(Voice { section: sec, frame: head, gain: Gain::Unity }), b: None }
}

/// The two voices of a cross.
pub open spec fn cross(from: usize, head: u64, out: Region, to: Option<Incoming>) -> Mix {
    Mix {
        a: Some(Voice { section: from, frame: head, gain: Gain::FadeOut { region: out } }),
        b: match to {
            Some(i) => Some(
                Voice {
                    section: i.section,
                    frame: i.head,
                    gain: Gain::FadeIn { region: i.region },
                },
            ),
            None => None,
        },
    }
}

/// Where playback stands once the left section is at `head` of its exit.
pub open spec fn crossed(from: usize, head: u64, out: Region, to: Option<Incoming>) -> Phase {
    if head >= out.end_frames {
        match to {
            Some(i) => Phase::Playing { sec: i.section, head: i.head, pending: None },
            None => Phase::Idle,
        }
    } else {
        Phase::Crossing { from, from_head: head, from_out: out, to }
    }
}

impl SequencerView {
    /// The section indices of the phase are those of sections, and a cross is
    /// in step.
    pub open spec fn valid(self) -> bool {
        match self.phase {
            Phase::Idle => true,
            Phase::Playing { sec, head, pending } => {
                &&& sec < self.sections.len()
                &&& pending matches Some(pe) ==> (pe.to matches Some(e) ==> e.section
                    < self.sections.len())
            },
            Phase::Crossing { from, from_head, from_out, to } => {
                &&& from < self.sections.len()
                &&& to matches Some(i) ==> {
                    &&& i.section < self.sections.len()
                    &&& i.head - i.region.sync_frames == from_head - from_out.sync_frames
                }
            },
        }
    }

    /// The first section of a kind.
    pub open spec fn index_of(self, kind: SectionKind) -> Option<int> {
        first_index(self.sections, |s: SectionShape| s.kind == kind)
    }

    /// The entry of the first section of a kind.
    pub open spec fn entry_of(self, kind: SectionKind) -> Option<Entry> {
        match self.index_of(kind) {
            Some(i) => Some(
                Entry { section: i as usize, region: self.sections[i].entry_region() },
            ),
            None => None,
        }
    }

    /// Playback from the beginning: Intro with its exit into Main armed, else
    /// Main from the start of its loop, else nothing.
    pub open spec fn started(self) -> SequencerView {
        let phase = match self.index_of(SectionKind::Intro) {
            Some(i) => Phase::Playing {
                sec: i as usize,
                head: 0,
                pending: match self.entry_of(SectionKind::Main) {
                    Some(e) => Some(
                        PendingExit { out: self.sections[i].exit_region(0), to: Some(e) },
                    ),
                    None => None,
                },
            },
            None => match self.index_of(SectionKind::Main) {
                Some(m) => Phase::Playing {
                    sec: m as usize,
                    head: match self.sections[m].loop_range {
                        Some((b, _)) => b,
                        None => 0,
                    },
                    pending: None,
                },
                None => Phase::Idle,
            },
        };
        SequencerView { phase, ..self }
    }

    /// An exit armed at the next out-region, into Outro or into silence. Only
    /// while Main plays with no exit armed.
    pub open spec fn exiting(self) -> SequencerView {
        match self.phase {
            Phase::Playing { sec, head, pending: None } => if self.sections[sec as int].kind
                == SectionKind::Main {
                SequencerView {
                    phase: Phase::Playing {
                        sec,
                        head,
                        pending: Some(
                            PendingExit {
                                out: self.sections[sec as int].exit_region(head),
                                to: self.entry_of(SectionKind::Outro),
                            },
                        ),
                    },
                    ..self
                }
            } else {
                self
            },
            _ => self,
        }
    }

    /// No playhead grows past what it can hold within `n` frames.
    pub open spec fn can_advance(self, n: u64) -> bool {
        match self.phase {
            Phase::Idle => true,
            Phase::Playing { sec, head, pending } => {
                let next = moved_head(
                    head as int,
                    n as int,
                    self.sections[sec as int].loop_range,
                );
                &&& head + n <= u64::MAX
                &&& pending matches Some(pe) ==> (next >= pe.start() ==> pe.incoming_fits(next))
            },
            Phase::Crossing { from, from_head, from_out, to } => {
                &&& from_head + n <= u64::MAX
                &&& to matches Some(i) ==> i.head + n <= u64::MAX
            },
        }
    }

    /// Where playback stands `n` frames on.
    pub open spec fn after(self, n: u64) -> SequencerView {
        let phase = match self.phase {
            Phase::Idle => Phase::Idle,
            Phase::Playing { sec, head, pending } => {
                let shape = self.sections[sec as int];
                let next = moved_head(head as int, n as int, shape.loop_range) as u64;
                match pending {
                    Some(pe) => if next >= pe.start() {
                        crossed(sec, next, pe.out, pe.incoming(next as int))
                    } else {
                        Phase::Playing { sec, head: next, pending }
                    },
                    None => if shape.loop_range is None && next >= shape.length {
                        Phase::Idle
                    } else {
                        Phase::Playing { sec, head: next, pending: None }
                    },
                }
            },
            Phase::Crossing { from, from_head, from_out, to } => crossed(
                from,
                (from_head + n) as u64,
                from_out,
                moved_incoming(to, n),
            ),
        };
        SequencerView { phase, ..self }
    }

    /// What sounds `n` frames on.
    pub open spec fn sounding(self, n: u64) -> Mix {
        match self.phase {
            Phase::Idle => silence(),
            Phase::Playing { sec, head, pending } => {
                let shape = self.sections[sec as int];
                let next = moved_head(head as int, n as int, shape.loop_range) as u64;
                match pending {
                    Some(pe) => if next >= pe.start() {
                        cross(sec, next, pe.out, pe.incoming(next as int))
                    } else {
                        solo(sec, next)
                    },
                    None => if shape.loop_range is None && next >= shape.length {
                        silence()
                    } else {
                        solo(sec, next)
                    },
                }
            },
            Phase::Crossing { from, from_head, from_out, to } => cross(
                from,
                (from_head + n) as u64,
                from_out,
                moved_incoming(to, n),
            ),
        }
    }
}

/// An incoming section `n` frames on.
pub open spec fn moved_incoming(to: Option<Incoming>, n: u64) -> Option<Incoming> {
    match to {
        Some(i) => Some(Incoming { head: (i.head + n) as u64, ..i }),
        None => None,
    }
}

/// The playback state machine.
pub struct Sequencer {
    sections: Vec<AdaptiveSection>,
    phase: Phase,
}

impl View for Sequencer {
    type V = SequencerView;

    closed spec fn view(&self) -> SequencerView {
        SequencerView {
            sections: self.sections@.map_values(|s: AdaptiveSection| s@),
            phase: self.phase,
        }
    }
}

impl Sequencer {
    #[verifier::type_invariant]
    spec fn inv(self) -> bool {
        self@.valid()
    }

    pub fn new(sections: Vec<AdaptiveSection>) -> (r: Self)
        ensures
            r@.phase == Phase::Idle,
            r@.sections == sections@.map_values(|s: AdaptiveSection| s@),
    {
        Sequencer { sections, phase: Phase::Idle }
    }

    fn index_of(&self, kind: SectionKind) -> (r: Option<usize>)
        ensures
            match r {
                Some(i) => self@.index_of(kind) == Some(i as int) && i < self@.sections.len(),
                None => self@.index_of(kind) is None,
            },
    {
        let ghost f = |s: SectionShape| s.kind == kind;
        let mut i: usize = 0;
        while i < self.sections.len()
            invariant
                0 <= i <= self.sections@.len(),
                f == (|s: SectionShape| s.kind == kind),
                forall|j: int| 0 <= j < i ==> !f(#[trigger] self@.sections[j]),
            decreases self.sections@.len() - i,
        {
            assert(self@.sections[i as int] == self.sections@[i as int]@);
            if self.sections[i].kind == kind {
                proof {
                    lemma_first_index(self@.sections, f, i as int);
                }
                return Some(i);
            }
            i += 1;
        }
        None
    }

    fn entry_of(&self, kind: SectionKind) -> (r: Option<Entry>)
        ensures
            r == self@.entry_of(kind),
            r matches Some(e) ==> e.section < self@.sections.len(),
    {
        let i = self.index_of(kind)?;
        assert(self@.sections[i as int] == self.sections@[i as int]@);
        Some(Entry { section: i, region: self.sections[i].entry_region() })
    }

    /// An exit from `sec` at `head` into the section of `to_kind`; none
    /// where there is no such section.
    fn arm_exit_from(&self, sec: usize, head: u64, to_kind: SectionKind) -> (r: Option<
        PendingExit,
    >)
        requires
            sec < self@.sections.len(),
        ensures
            r == match self@.entry_of(to_kind) {
                Some(e) => Some(
                    PendingExit { out: self@.sections[sec as int].exit_region(head), to: Some(e) },
                ),
                None => None,
            },
    {
        let e = self.entry_of(to_kind)?;
        assert(self@.sections[sec as int] == self.sections@[sec as int]@);
        Some(PendingExit { out: self.sections[sec].exit_region(head), to: Some(e) })
    }

    /// Begin playback at Intro, armed to go over into Main, or without an
    /// Intro at the start of Main's loop.
    pub fn start(&mut self)
        ensures
            final(self)@ == old(self)@.started(),
    {
        let ghost o = self@;
        proof {
            assert(o.sections.len() == self.sections.len());
            lemma_entry_in_range(o, SectionKind::Main);
        }
        if let Some(intro) = self.index_of(SectionKind::Intro) {
            let pending = self.arm_exit_from(intro, 0, SectionKind::Main);
            self.phase = Phase::Playing { sec: intro, head: 0, pending };
        } else if let Some(main) = self.index_of(SectionKind::Main) {
            assert(self@.sections[main as int] == self.sections@[main as int]@);
            let head: u64 = match self.sections[main].loop_range {
                Some((b, _)) => b,
                None => 0,
            };
            self.phase = Phase::Playing { sec: main, head, pending: None };
        } else {
            self.phase = Phase::Idle;
        }
    }

    pub fn stop(&mut self)
        ensures
            final(self)@ == (SequencerView { phase: Phase::Idle, ..old(self)@ }),
    {
        self.phase = Phase::Idle;
    }

    pub fn is_playing(&self) -> (r: bool)
        ensures
            r == (self@.phase != Phase::Idle),
    {
        match self.phase {
            Phase::Idle => false,
            _ => true,
        }
    }

    pub fn current_section(&self) -> (r: Option<usize>)
        ensures
            r == match self@.phase {
                Phase::Idle => None,
                Phase::Playing { sec, .. } => Some(sec),
                Phase::Crossing { from, .. } => Some(from),
            },
    {
        match self.phase {
            Phase::Idle => None,
            Phase::Playing { sec, .. } => Some(sec),
            Phase::Crossing { from, .. } => Some(from),
        }
    }

    /// Whether an exit is armed or under way.
    pub fn is_exit_pending(&self) -> (r: bool)
        ensures
            r == match self@.phase {
                Phase::Idle => false,
                Phase::Playing { pending, .. } => pending is Some,
                Phase::Crossing { .. } => true,
            },
    {
        match self.phase {
            Phase::Idle => false,
            Phase::Playing { pending, .. } => pending.is_some(),
            Phase::Crossing { .. } => true,
        }
    }

    /// Ask for an exit. While Main plays with none armed: arms the next
    /// out-region, into Outro or, without one, into silence.
    pub fn trigger_exit(&mut self)
        ensures
            final(self)@ == old(self)@.exiting(),
    {
        let ghost o = self@;
        proof {
            use_type_invariant(&*self);
            assert(o.sections.len() == self.sections.len());
            lemma_entry_in_range(o, SectionKind::Outro);
        }
        match self.phase {
            Phase::Playing { sec, head, pending } => {
                assert(self@.sections[sec as int] == self.sections@[sec as int]@);
                if pending.is_none() && self.sections[sec].kind == SectionKind::Main {
                    let out = self.sections[sec].exit_region(head);
                    let to = self.entry_of(SectionKind::Outro);
                    self.phase = Phase::Playing {
                        sec,
                        head,
                        pending: Some(PendingExit { out, to }),
                    };
                }
            },
            _ => {},
        }
    }

    /// Whether the clock can move on by `n` frames with every playhead in
    /// range.
    pub fn can_advance(&self, n: u64) -> (r: bool)
        ensures
            r == self@.can_advance(n),
    {
        proof {
            use_type_invariant(self);
        }
        match self.phase {
            Phase::Idle => true,
            Phase::Playing { sec, head, pending } => {
                assert(self@.sections[sec as int] == self.sections@[sec as int]@);
                if head > u64::MAX - n {
                    return false;
                }
                let next: u64 = advance_head(head, n, self.sections[sec].loop_range);
                match pending {
                    Some(pe) => {
                        let start: u64 = cross_start(&pe);
                        match pe.to {
                            Some(e) => next < start || next <= pe.out.sync_frames || next
                                - pe.out.sync_frames <= u64::MAX - e.region.sync_frames,
                            None => true,
                        }
                    },
                    None => true,
                }
            },
            Phase::Crossing { from, from_head, from_out, to } => {
                if from_head > u64::MAX - n {
                    return false;
                }
                match to {
                    Some(i) => i.head <= u64::MAX - n,
                    None => true,
                }
            },
        }
    }

    /// Move the clock on by `n` frames and report what sounds.
    pub fn advance(&mut self, n: u64) -> (r: Mix)
        requires
            old(self)@.can_advance(n),
        ensures
            final(self)@ == old(self)@.after(n),
            r == old(self)@.sounding(n),
    {
        proof {
            use_type_invariant(&*self);
        }
        match self.phase {
            Phase::Idle => Mix { a: None, b: None },
            Phase::Playing { sec, head, pending } => self.advance_playing(sec, head, pending, n),
            Phase::Crossing { from, from_head, from_out, to } => self.advance_crossing(
                from,
                from_head,
                from_out,
                to,
                n,
            ),
        }
    }

    fn advance_playing(
        &mut self,
        sec: usize,
        head: u64,
        pending: Option<PendingExit>,
        n: u64,
    ) -> (r: Mix)
        requires
            old(self)@.phase == (Phase::Playing { sec, head, pending }),
            old(self)@.can_advance(n),
        ensures
            final(self)@ == old(self)@.after(n),
            r == old(self)@.sounding(n),
    {
        proof {
            use_type_invariant(&*self);
        }
        assert(self@.sections[sec as int] == self.sections@[sec as int]@);
        let loop_range = self.sections[sec].loop_range;
        let length: u64 = self.sections[sec].length;
        let new_head: u64 = advance_head(head, n, loop_range);
        if let Some(pe) = pending {
            // B starts early enough to reach its sync point when A does.
            let start: u64 = cross_start(&pe);
            if new_head >= start {
                let to = match pe.to {
                    Some(e) => Some(
                        Incoming {
                            section: e.section,
                            head: if new_head >= pe.out.sync_frames {
                                e.region.sync_frames + (new_head - pe.out.sync_frames)
                            } else {
                                e.region.sync_frames - (pe.out.sync_frames - new_head)
                            },
                            region: e.region,
                        },
                    ),
                    None => None,
                };
                self.phase = cross_phase(sec, new_head, pe.out, to);
                return cross_mix(sec, new_head, pe.out, to);
            }
            self.phase = Phase::Playing { sec, head: new_head, pending };
            return Mix {
                a: Some(Voice { section: sec, frame: new_head, gain: Gain::Unity }),
                b: None,
            };
        }
        // With no exit armed, a section that plays once ends at its length.

        if loop_range.is_none() && new_head >= length {
            self.phase = Phase::Idle;
            return Mix { a: None, b: None };
        }
        self.phase = Phase::Playing { sec, head: new_head, pending: None };
        Mix { a: Some(Voice { section: sec, frame: new_head, gain: Gain::Unity }), b: None }
    }

    fn advance_crossing(
        &mut self,
        from: usize,
        from_head: u64,
        from_out: Region,
        to: Option<Incoming>,
        n: u64,
    ) -> (r: Mix)
        requires
            old(self)@.phase == (Phase::Crossing { from, from_head, from_out, to }),
            old(self)@.can_advance(n),
        ensures
            final(self)@ == old(self)@.after(n),
            r == old(self)@.sounding(n),
    {
        proof {
            use_type_invariant(&*self);
        }
        // A plays on without looping; B moves toward and past its sync point.
        let new_from: u64 = from_head + n;
        let new_to = match to {
            Some(i) => Some(Incoming { section: i.section, head: i.head + n, region: i.region }),
            None => None,
        };
        self.phase = cross_phase(from, new_from, from_out, new_to);
        cross_mix(from, new_from, from_out, new_to)
    }
}

/// The entry into a kind of section names a section that is there.
proof fn lemma_entry_in_range(v: SequencerView, kind: SectionKind)
    requires
        v.sections.len() <= usize::MAX,
    ensures
        v.entry_of(kind) matches Some(e) ==> e.section < v.sections.len(),
{
    lemma_first_index_found(v.sections, |s: SectionShape| s.kind == kind);
}

/// Advance a head by `n`, wrapping through a loop window if there is one.
pub fn advance_head(head: u64, n: u64, loop_range: Option<(u64, u64)>) -> (r: u64)
    requires
        head + n <= u64::MAX,
    ensures
        r == moved_head(head as int, n as int, loop_range),
{
    let next: u64 = head + n;
    if let Some((begin, end)) = loop_range {
        if end > begin && next >= end {
            let span: u64 = end - begin;
            proof {
                vstd::arithmetic::div_mod::lemma_mod_bound((next - end) as int, span as int);
            }
            return begin + (next - end) % span;
        }
    }
    next
}

/// The frame at which the cross of an exit begins.
fn cross_start(pe: &PendingExit) -> (r: u64)
    ensures
        r == pe.start(),
{
    let lead: u64 = match pe.to {
        Some(e) => if e.region.sync_frames >= e.region.begin_frames {
            e.region.sync_frames - e.region.begin_frames
        } else {
            0
        },
        None => 0,
    };
    if pe.out.sync_frames >= lead {
        pe.out.sync_frames - lead
    } else {
        0
    }
}

fn cross_mix(from: usize, head: u64, out: Region, to: Option<Incoming>) -> (r: Mix)
    ensures
        r == cross(from, head, out, to),
{
    Mix {
        a: Some(Voice { section: from, frame: head, gain: Gain::FadeOut { region: out } }),
        b: match to {
            Some(i) => Some(
                Voice {
                    section: i.section,
                    frame: i.head,
                    gain: Gain::FadeIn { region: i.region },
                },
            ),
            None => None,
        },
    }
}

fn cross_phase(from: usize, head: u64, out: Region, to: Option<Incoming>) -> (r: Phase)
    ensures
        r == crossed(from, head, out, to),
{
    if head >= out.end_frames {
        // The fade-out of A is done.
        match to {
            Some(i) => Phase::Playing { sec: i.section, head: i.head, pending: None },
            None => Phase::Idle,
        }
    } else {
        Phase::Crossing { from, from_head: head, from_out: out, to }
    }
}

/// Level of an in-region at local frame `local`: the fade takes the last
/// `fade_frames` frames up to the sync point.
pub open spec fn entry_level(r: Region, fade_frames: u64, local: u64) -> FadeLevel {
    let start = if r.sync_frames >= fade_frames {
        r.sync_frames - fade_frames
    } else {
        0
    };
    if !r.fades() || local >= r.sync_frames {
        FadeLevel::Full
    } else if local <= start {
        FadeLevel::Silent
    } else {
        FadeLevel::Rising { offset: (local - start) as u64, length: fade_frames }
    }
}

/// Level of an out-region at local frame `local`: the fade takes the first
/// `fade_frames` frames from the sync point.
pub open spec fn exit_level(r: Region, fade_frames: u64, local: u64) -> FadeLevel {
    if !r.fades() || local <= r.sync_frames {
        FadeLevel::Full
    } else if local >= r.sync_frames + fade_frames {
        FadeLevel::Silent
    } else {
        FadeLevel::Falling { offset: (local - r.sync_frames) as u64, length: fade_frames }
    }
}

/// Level of an in-region at local frame `local`, given the length of its
/// fade.
pub fn in_gain(r: &Region, fade_frames: u64, local: u64) -> (l: FadeLevel)
    ensures
        l == entry_level(*r, fade_frames, local),
{
    if r.fade_pct.le(Real32 { bits: ZERO_BITS }) {
        return FadeLevel::Full;
    }
    let start: u64 = if r.sync_frames >= fade_frames {
        r.sync_frames - fade_frames
    } else {
        0
    };
    if local >= r.sync_frames {
        FadeLevel::Full
    } else if local <= start {
        FadeLevel::Silent
    } else {
        FadeLevel::Rising { offset: local - start, length: fade_frames }
    }
}

/// Level of an out-region at local frame `local`, given the length of its
/// fade.
pub fn out_gain(r: &Region, fade_frames: u64, local: u64) -> (l: FadeLevel)
    requires
        r.sync_frames + fade_frames <= u64::MAX,
    ensures
        l == exit_level(*r, fade_frames, local),
{
    if r.fade_pct.le(Real32 { bits: ZERO_BITS }) {
        return FadeLevel::Full;
    }
    let end: u64 = r.sync_frames + fade_frames;
    if local <= r.sync_frames {
        FadeLevel::Full
    } else if local >= end {
        FadeLevel::Silent
    } else {
        FadeLevel::Falling { offset: local - r.sync_frames, length: fade_frames }
    }
}

// Laws.

/// The clock can be moved on by each of `steps` in turn.
pub open spec fn runnable(v: SequencerView, steps: Seq<u64>) -> bool
    decreases steps.len(),
{
    steps.len() == 0 || (runnable(v, steps.drop_last()) && run(v, steps.drop_last()).can_advance(
        steps.last(),
    ))
}

/// Where playback stands after each of `steps` in turn.
pub open spec fn run(v: SequencerView, steps: Seq<u64>) -> SequencerView
    decreases steps.len(),
{
    if steps.len() == 0 {
        v
    } else {
        run(v, steps.drop_last()).after(steps.last())
    }
}

/// Advancing keeps the phase valid: indices in range, and A and B of a cross
/// in step.
pub proof fn advancing_keeps_valid(v: SequencerView, n: u64)
    requires
        v.valid(),
        v.can_advance(n),
    ensures
        v.after(n).valid(),
{
    if let Phase::Playing { sec, head, pending } = v.phase {
        lemma_moved_head(head, n, v.sections[sec as int].loop_range);
    }
}

proof fn lemma_moved_head(head: u64, n: u64, loop_range: Option<(u64, u64)>)
    requires
        head + n <= u64::MAX,
    ensures
        0 <= moved_head(head as int, n as int, loop_range) <= u64::MAX,
        loop_range matches Some((b, e)) ==> {
            let next = moved_head(head as int, n as int, loop_range);
            &&& e > b && head < e ==> next < e
            &&& e > b && head >= b ==> next >= b
        },
{
    if let Some((b, e)) = loop_range {
        if e > b && head + n >= e {
            vstd::arithmetic::div_mod::lemma_mod_bound(head + n - e, e - b);
        }
    }
}

/// Moving a head on in two blocks brings it where one block of both does,
/// through a loop window too.
pub proof fn splitting_a_block_keeps_the_head(
    head: int,
    first: int,
    second: int,
    loop_range: Option<(u64, u64)>,
)
    requires
        0 <= first,
        0 <= second,
    ensures
        moved_head(moved_head(head, first, loop_range), second, loop_range) == moved_head(
            head,
            first + second,
            loop_range,
        ),
{
    if let Some((b, e)) = loop_range {
        if e > b && head + first >= e {
            let span = e - b;
            let past = head + first - e;
            let r = past % span;
            vstd::arithmetic::div_mod::lemma_mod_bound(past, span);
            vstd::arithmetic::div_mod::lemma_add_mod_noop_right(second, past, span);
            if r + second < span {
                vstd::arithmetic::div_mod::lemma_small_mod((r + second) as nat, span as nat);
            } else {
                vstd::arithmetic::div_mod::lemma_mod_sub_multiples_vanish(r + second, span);
            }
        }
    }
}

/// The sync instant: when the outgoing section of a cross is at the sync
/// point of its out-region, the incoming one is at that of its in-region, and
/// both are at full level. Before and after it they are equally far from it.
pub proof fn cross_is_in_sync(v: SequencerView, in_fade: u64, out_fade: u64)
    requires
        v.valid(),
    ensures
        v.phase matches Phase::Crossing { from_head, from_out, to: Some(i), .. } ==> {
            &&& i.head - i.region.sync_frames == from_head - from_out.sync_frames
            &&& from_head == from_out.sync_frames <==> i.head == i.region.sync_frames
            &&& from_head == from_out.sync_frames ==> {
                &&& exit_level(from_out, out_fade, from_head) == FadeLevel::Full
                &&& entry_level(i.region, in_fade, i.head) == FadeLevel::Full
            }
        },
{
}

/// A cross that an armed exit begins is in step whatever the sync points are,
/// and where there is room, the in-region is played from its begin.
pub proof fn cross_begins_in_step(v: SequencerView, n: u64)
    requires
        v.valid(),
        v.can_advance(n),
    ensures
        v.phase matches Phase::Playing { sec, head, pending: Some(pe) } ==> {
            let next = moved_head(head as int, n as int, v.sections[sec as int].loop_range);
            next >= pe.start() && pe.to is Some ==> {
                &&& v.sounding(n).a matches Some(a) && v.sounding(n).b matches Some(b) && b.frame
                    - pe.to->0.region.sync_frames == a.frame - pe.out.sync_frames
                &&& next == pe.start() && pe.lead() <= pe.out.sync_frames
                    && pe.to->0.region.begin_frames <= pe.to->0.region.sync_frames
                    ==> v.sounding(n).b->0.frame == pe.to->0.region.begin_frames
            }
        },
{
    if let Phase::Playing { sec, head, pending } = v.phase {
        lemma_moved_head(head, n, v.sections[sec as int].loop_range);
    }
}

/// `frame` lies in the loop window of the section.
pub open spec fn in_loop(s: SectionShape, frame: u64) -> bool {
    s.loop_range matches Some((b, e)) && b <= frame < e
}

/// The section `sec` plays inside its loop and no exit is armed.
pub open spec fn loops_alone(v: SequencerView, sec: usize) -> bool {
    v.phase matches Phase::Playing { sec: s, head, pending: None } && s == sec && in_loop(
        v.sections[sec as int],
        head,
    )
}

/// Main without an exit asked for plays on inside its loop, alone and at full
/// level, however the clock is moved.
pub proof fn main_loops_until_exit(v: SequencerView, sec: usize, steps: Seq<u64>, n: u64)
    requires
        v.valid(),
        loops_alone(v, sec),
        runnable(v, steps.push(n)),
    ensures
        loops_alone(run(v, steps), sec),
        run(v, steps).sounding(n) matches Mix { a: Some(voice), b: None } && voice.section == sec
            && voice.gain == Gain::Unity && in_loop(v.sections[sec as int], voice.frame),
        run(v, steps).sections == v.sections,
    decreases steps.len(),
{
    assert(steps.push(n).drop_last() =~= steps);
    assert(runnable(v, steps));
    if steps.len() > 0 {
        let prev = steps.drop_last();
        let k = steps.last();
        assert(prev.push(k) =~= steps);
        main_loops_until_exit(v, sec, prev, k);
        let w = run(v, prev);
        assert(w.can_advance(k));
        if let Phase::Playing { sec: s, head, pending } = w.phase {
            lemma_moved_head(head, k, v.sections[sec as int].loop_range);
        }
    }
    let w = run(v, steps);
    if let Phase::Playing { sec: s, head, pending } = w.phase {
        lemma_moved_head(head, n, v.sections[sec as int].loop_range);
    }
}

/// An exit uses the first out-region that begins after the playhead, and the
/// last one where none does.
pub proof fn exit_uses_next_region(s: SectionShape, head: u64)
    ensures
        forall|i: int|
            0 <= i < s.out_regions.len() && (#[trigger] s.out_regions[i]).begin_frames > head && (
            forall|j: int|
                0 <= j < i ==> (#[trigger] s.out_regions[j]).begin_frames <= head)
                ==> s.exit_region(head) == s.out_regions[i],
        s.out_regions.len() > 0 && (forall|j: int|
            0 <= j < s.out_regions.len() ==> (#[trigger] s.out_regions[j]).begin_frames <= head)
            ==> s.exit_region(head) == s.out_regions.last(),
{
    let f = begins_after(head);
    lemma_first_index_found(s.out_regions, f);
    assert forall|i: int|
        0 <= i < s.out_regions.len() && (#[trigger] s.out_regions[i]).begin_frames > head && (
        forall|j: int|
            0 <= j < i ==> (#[trigger] s.out_regions[j]).begin_frames
                <= head) implies s.exit_region(head) == s.out_regions[i] by {
        assert(is_first(s.out_regions, f, i));
        lemma_first_index(s.out_regions, f, i);
    }
}

/// Once ended, playback stays silent however the clock is moved.
pub proof fn idle_stays_silent(v: SequencerView, steps: Seq<u64>, n: u64)
    requires
        v.phase == Phase::Idle,
    ensures
        runnable(v, steps),
        run(v, steps) == v,
        run(v, steps).sounding(n) == silence(),
    decreases steps.len(),
{
    if steps.len() > 0 {
        idle_stays_silent(v, steps.drop_last(), n);
    }
}

/// A section that plays once, with no exit armed, ends at its length: so does
/// Outro.
pub proof fn play_once_ends(v: SequencerView, n: u64)
    requires
        v.valid(),
        v.can_advance(n),
        v.phase matches Phase::Playing { sec, head, pending: None }
            && v.sections[sec as int].loop_range is None && head + n
            >= v.sections[sec as int].length,
    ensures
        v.after(n).phase == Phase::Idle,
        v.sounding(n) == silence(),
{
}

/// An armed exit of a section that plays once lands in its target once the
/// out-region has passed: so does Intro in Main.
pub proof fn armed_exit_lands(v: SequencerView, n: u64)
    requires
        v.valid(),
        v.can_advance(n),
        v.phase matches Phase::Playing { sec, head, pending: Some(pe) }
            && v.sections[sec as int].loop_range is None && head + n >= pe.out.end_frames && head
            + n >= pe.out.sync_frames,
    ensures
        v.phase matches Phase::Playing { pending: Some(pe), .. } ==> match pe.to {
            Some(e) => v.after(n).phase matches Phase::Playing { sec, pending: None, .. } && sec
                == e.section,
            None => v.after(n).phase == Phase::Idle,
        },
{
}

/// Asking for an exit again changes nothing.
pub proof fn second_exit_request_is_ignored(v: SequencerView)
    ensures
        v.exiting().exiting() == v.exiting(),
{
}

/// What sounds is where playback stands. A section that sounds alone plays on
/// from the frame at which it sounded. Of a cross, the outgoing and the
/// incoming section are where they sounded, and when it is over the incoming
/// one plays on from there. So the blocks of a section follow each other.
pub proof fn playback_goes_on_from_what_sounded(v: SequencerView, n: u64)
    requires
        v.valid(),
        v.can_advance(n),
    ensures
        v.after(n).sections == v.sections,
        ({
            let m = v.sounding(n);
            match v.after(n).phase {
                Phase::Idle => m.b is None,
                Phase::Playing { sec, head, pending } => match m.b {
                    Some(b) => sec == b.section && head == b.frame && pending is None,
                    None => m.a matches Some(a) && a.section == sec && a.frame == head && a.gain
                        == Gain::Unity,
                },
                Phase::Crossing { from, from_head, from_out, to } => {
                    &&& m.a matches Some(a) && a.section == from && a.frame == from_head && a.gain
                        == (Gain::FadeOut { region: from_out })
                    &&& m.b is Some <==> to is Some
                    &&& to matches Some(i) ==> m.b->0.section == i.section && m.b->0.frame == i.head
                        && m.b->0.gain == (Gain::FadeIn { region: i.region })
                },
            }
        }),
{
    if let Phase::Playing { sec, head, pending } = v.phase {
        lemma_moved_head(head, n, v.sections[sec as int].loop_range);
    }
}

/// A cross runs on: both sections move by as many frames as the clock does, by
/// the same regions, until the outgoing one is at the end of its out-region.
/// Then the incoming one is left, or nothing.
pub proof fn a_cross_runs_on(v: SequencerView, n: u64)
    requires
        v.valid(),
        v.can_advance(n),
        v.phase is Crossing,
    ensures
        v.phase matches Phase::Crossing { from, from_head, from_out, to } ==> {
            let m = v.sounding(n);
            &&& m.a matches Some(a) && a.section == from && a.frame == from_head + n && a.gain == (
            Gain::FadeOut { region: from_out })
            &&& match to {
                Some(i) => m.b matches Some(b) && b.section == i.section && b.frame == i.head + n
                    && b.gain == (Gain::FadeIn { region: i.region }),
                None => m.b is None,
            }
            &&& from_head + n < from_out.end_frames ==> (v.after(n).phase matches Phase::Crossing {
                from: f,
                from_head: h,
                from_out: o,
                to: t,
            } && f == from && h == from_head + n && o == from_out && (t is Some <==> to is Some)
                && (t matches Some(j) ==> j.section == to->0.section && j.head == to->0.head + n
                && j.region == to->0.region))
            &&& from_head + n >= from_out.end_frames ==> match to {
                Some(i) => v.after(n).phase matches Phase::Playing { sec, head, pending } && sec
                    == i.section && head == i.head + n && pending is None,
                None => v.after(n).phase is Idle,
            }
        },
{
}

/// A head that is moved on by `n` is `n` further, up to the end of the loop
/// window. From there on it is in the window, and as far from where it would
/// be without one as some number of rounds is long.
pub proof fn heads_go_round(head: int, n: int, loop_range: Option<(u64, u64)>)
    requires
        0 <= head,
        0 <= n,
    ensures
        ({
            let next = moved_head(head, n, loop_range);
            match loop_range {
                None => next == head + n,
                Some((b, e)) => {
                    &&& b >= e || head + n < e ==> next == head + n
                    &&& b < e <= head + n ==> b <= next < e && exists|rounds: int|
                        rounds >= 1 && head + n == next + #[trigger] (rounds * (e - b))
                },
            }
        }),
{
    if let Some((b, e)) = loop_range {
        if b < e && head + n >= e {
            let span = e - b;
            let past = head + n - e;
            vstd::arithmetic::div_mod::lemma_mod_bound(past, span);
            vstd::arithmetic::div_mod::lemma_fundamental_div_mod(past, span);
            vstd::arithmetic::div_mod::lemma_div_pos_is_pos(past, span);
            let rounds = past / span + 1;
            assert(rounds * span == span * (past / span) + span) by (nonlinear_arith)
                requires
                    rounds == past / span + 1,
            ;
            assert(head + n == moved_head(head, n, loop_range) + rounds * (e - b));
        }
    }
}

/// A section that plays with no exit armed sounds alone at full level, at its
/// head moved on, until it ends, which a section that loops never does.
pub proof fn a_section_plays_alone(v: SequencerView, n: u64)
    requires
        v.valid(),
        v.can_advance(n),
    ensures
        v.phase matches Phase::Playing { sec, head, pending: None } ==> {
            let shape = v.sections[sec as int];
            let next = moved_head(head as int, n as int, shape.loop_range);
            let m = v.sounding(n);
            if shape.loop_range is Some || head + n < shape.length {
                &&& m.b is None
                &&& m.a matches Some(a) && a.section == sec && a.frame == next && a.gain
                    == Gain::Unity
                &&& v.after(n).phase matches Phase::Playing { sec: s, head: h, pending: None } && s
                    == sec && h == next
            } else {
                m.a is None && m.b is None && v.after(n).phase is Idle
            }
        },
{
    if let Phase::Playing { sec, head, pending } = v.phase {
        lemma_moved_head(head, n, v.sections[sec as int].loop_range);
    }
}

/// An armed exit waits, its section playing alone, as long as the section it
/// leads into, or silence, is not due: that is until it has as many frames left
/// to its sync point as the in-region has from its begin to its own.
pub proof fn an_armed_exit_waits_its_time(v: SequencerView, n: u64)
    requires
        v.valid(),
        v.can_advance(n),
    ensures
        v.phase matches Phase::Playing { sec, head, pending: Some(pe) } ==> {
            let next = moved_head(head as int, n as int, v.sections[sec as int].loop_range);
            let due = match pe.to {
                Some(e) => next + (if e.region.sync_frames >= e.region.begin_frames {
                    e.region.sync_frames - e.region.begin_frames
                } else {
                    0
                }) >= pe.out.sync_frames,
                None => next >= pe.out.sync_frames,
            };
            let m = v.sounding(n);
            &&& m.a matches Some(a) && a.section == sec && a.frame == next && a.gain == if due {
                Gain::FadeOut { region: pe.out }
            } else {
                Gain::Unity
            }
            &&& m.b is Some <==> due && pe.to is Some
            &&& m.b matches Some(b) ==> b.section == pe.to->0.section && b.gain == (Gain::FadeIn {
                region: pe.to->0.region,
            })
            &&& !due ==> (v.after(n).phase matches Phase::Playing { sec: s, head: h, pending: p }
                && s == sec && h == next && p == Some(pe))
            &&& due && next < pe.out.end_frames ==> v.after(n).phase is Crossing
            &&& due && next >= pe.out.end_frames ==> match pe.to {
                Some(e) => v.after(n).phase matches Phase::Playing { sec: s, .. } && s
                    == e.section,
                None => v.after(n).phase is Idle,
            }
        },
{
    if let Phase::Playing { sec, head, pending } = v.phase {
        lemma_moved_head(head, n, v.sections[sec as int].loop_range);
    }
}

/// `i` is the first section of a kind.
pub open spec fn first_of_kind(v: SequencerView, kind: SectionKind, i: int) -> bool {
    &&& 0 <= i < v.sections.len()
    &&& v.sections[i].kind == kind
    &&& forall|j: int| 0 <= j < i ==> (#[trigger] v.sections[j]).kind != kind
}

/// There is no section of a kind.
pub open spec fn none_of_kind(v: SequencerView, kind: SectionKind) -> bool {
    forall|j: int| 0 <= j < v.sections.len() ==> (#[trigger] v.sections[j]).kind != kind
}

/// Playback begins with the first Intro, from its first frame, on its way into
/// the first Main by the exit that is next and the first in-region. Without a
/// Main it has nowhere to go. Without an Intro playback begins with Main where
/// its loop begins, and without both it does not.
pub proof fn playback_begins_with_the_intro(v: SequencerView, i: int, m: int)
    requires
        v.sections.len() <= usize::MAX,
    ensures
        v.started().sections == v.sections,
        first_of_kind(v, SectionKind::Intro, i) && first_of_kind(v, SectionKind::Main, m)
            ==> v.started().phase == (Phase::Playing {
            sec: i as usize,
            head: 0,
            pending: Some(
                PendingExit {
                    out: v.sections[i].exit_region(0),
                    to: Some(
                        Entry { section: m as usize, region: v.sections[m].entry_region() },
                    ),
                },
            ),
        }),
        first_of_kind(v, SectionKind::Intro, i) && none_of_kind(v, SectionKind::Main)
            ==> v.started().phase == (Phase::Playing { sec: i as usize, head: 0, pending: None }),
        none_of_kind(v, SectionKind::Intro) && first_of_kind(v, SectionKind::Main, m) ==> (
        v.started().phase matches Phase::Playing { sec, head, pending: None } && sec == m && match v.sections[m].loop_range {
            Some((b, _)) => head == b,
            None => head == 0,
        }),
        none_of_kind(v, SectionKind::Intro) && none_of_kind(v, SectionKind::Main)
            ==> v.started().phase is Idle,
{
    lemma_kind_index(v, SectionKind::Intro, i);
    lemma_kind_index(v, SectionKind::Main, m);
}

proof fn lemma_kind_index(v: SequencerView, kind: SectionKind, i: int)
    ensures
        first_of_kind(v, kind, i) ==> v.index_of(kind) == Some(i),
        none_of_kind(v, kind) ==> v.index_of(kind) is None,
{
    let f = |s: SectionShape| s.kind == kind;
    lemma_first_index_found(v.sections, f);
    if first_of_kind(v, kind, i) {
        assert(is_first(v.sections, f, i));
        lemma_first_index(v.sections, f, i);
    }
}

/// Asking for an exit arms it while Main plays and none is armed: at the
/// out-region that is next from where it plays, into the first Outro by its
/// first in-region, or into silence. Nothing else of playback changes, and at
/// any other time nothing at all.
pub proof fn an_exit_is_armed_only_in_main(v: SequencerView, o: int)
    requires
        v.valid(),
        v.sections.len() <= usize::MAX,
    ensures
        v.exiting().sections == v.sections,
        v.phase is Idle || v.phase is Crossing ==> v.exiting() == v,
        v.phase matches Phase::Playing { sec, head, pending } ==> {
            &&& pending is Some || v.sections[sec as int].kind != SectionKind::Main ==> v.exiting()
                == v
            &&& pending is None && v.sections[sec as int].kind == SectionKind::Main ==> (
            v.exiting().phase matches Phase::Playing { sec: s, head: h, pending: Some(pe) } && s
                == sec && h == head && pe.out == v.sections[sec as int].exit_region(head) && (
            first_of_kind(v, SectionKind::Outro, o) ==> pe.to == Some(
                Entry { section: o as usize, region: v.sections[o].entry_region() },
            )) && (none_of_kind(v, SectionKind::Outro) ==> pe.to is None))
        },
{
    lemma_kind_index(v, SectionKind::Outro, o);
}

/// A section is entered by the first of its in-regions. One without any is
/// entered at its first frame and at full level at once, and one without
/// out-regions is left at its end.
pub proof fn sections_have_entries_and_exits(s: SectionShape, head: u64, fade: u64, local: u64)
    ensures
        s.in_regions.len() > 0 ==> s.entry_region() == s.in_regions[0],
        s.in_regions.len() == 0 ==> {
            let r = s.entry_region();
            &&& r.begin_frames == 0 && r.sync_frames == 0 && r.end_frames == 0
            &&& entry_level(r, fade, local) == FadeLevel::Full
        },
        s.out_regions.len() == 0 ==> {
            let r = s.exit_region(head);
            &&& r.begin_frames == s.length && r.sync_frames == s.length && r.end_frames == s.length
            &&& exit_level(r, fade, local) == FadeLevel::Full
        },
{
    lemma_first_index_found(s.out_regions, begins_after(head));
}

/// How loud a level is at most, in so many parts of full: nothing when silent,
/// `whole` when full.
pub open spec fn height(l: FadeLevel, whole: int) -> int {
    match l {
        FadeLevel::Silent => 0,
        FadeLevel::Full => whole,
        FadeLevel::Rising { offset, length } => offset as int,
        FadeLevel::Falling { offset, length } => length - offset,
    }
}

/// A fade-in of `fade` frames is silent up to that many frames before its sync
/// point, is full from there on, and grows by one part with each frame between.
/// A fade-out is full up to its sync point, silent that many frames behind it,
/// and shrinks by one part with each frame between. Both go by their parts of
/// the whole fade.
pub proof fn fades_take_their_frames(r: Region, fade: u64, local: u64)
    requires
        !r.fade_pct.at_most(Real32 { bits: ZERO_BITS }),
        0 < fade <= r.sync_frames,
    ensures
        ({
            let l = entry_level(r, fade, local);
            &&& l is Silent <==> local + fade <= r.sync_frames
            &&& l is Full <==> local >= r.sync_frames
            &&& r.sync_frames - fade <= local <= r.sync_frames ==> height(l, fade as int) == local
                + fade - r.sync_frames
            &&& l matches FadeLevel::Rising { length, .. } ==> length == fade
            &&& !(l is Falling)
        }),
        ({
            let l = exit_level(r, fade, local);
            &&& l is Full <==> local <= r.sync_frames
            &&& l is Silent <==> local >= r.sync_frames + fade
            &&& r.sync_frames <= local <= r.sync_frames + fade ==> height(l, fade as int)
                == r.sync_frames + fade - local
            &&& l matches FadeLevel::Falling { length, .. } ==> length == fade
            &&& !(l is Rising)
        }),
{
}

/// Only an outgoing voice that is past its sync point is late.
pub proof fn only_outgoing_voices_are_late(m: Mix)
    ensures
        m.outgoing_is_late() ==> m.a is Some,
        m.a matches Some(a) ==> match a.gain {
            Gain::FadeOut { region } => m.outgoing_is_late() <==> a.frame > region.sync_frames,
            _ => !m.outgoing_is_late(),
        },
{
}

/// A region without a fade of its own leaves the level full throughout.
pub proof fn unfaded_region_is_full(r: Region, fade_frames: u64, local: u64)
    requires
        r.fade_pct.at_most(Real32 { bits: ZERO_BITS }),
    ensures
        entry_level(r, fade_frames, local) == FadeLevel::Full,
        exit_level(r, fade_frames, local) == FadeLevel::Full,
        r.in_level(fade_frames, local) == FadeLevel::Full,
        r.out_level(fade_frames, local) == FadeLevel::Full,
{
}

} // verus!
