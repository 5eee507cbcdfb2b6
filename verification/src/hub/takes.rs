//! The recorded takes of the sections, with their transition regions.
use vstd::prelude::*;

use crate::navigator::model::Region;
use crate::navigator::model::SectionKind;
use crate::number::Real32;
use crate::sequencer::AdaptiveSection;
use crate::sequencer::SectionShape;
use crate::take::TakeState;
use crate::take::TakeView;

verus! {

/// The take of one section, and the regions by which it is entered and left.
#[derive(Debug)]
pub struct SectionTake {
    pub armed: Vec<usize>,
    pub start_pulses: u64,
    pub bpm: Real32,
    pub time_sig: u32,
    pub user_offset_units: Real32,
    pub in_regions: Vec<Region>,
    pub out_regions: Vec<Region>,
    /// The window that is looped; none for the whole take.
    pub loop_range: Option<(u64, u64)>,
}

/// The contents of a [`SectionTake`].
#[verifier::ext_equal]
pub struct SectionTakeView {
    pub armed: Seq<usize>,
    pub start_pulses: u64,
    pub bpm: Real32,
    pub time_sig: u32,
    pub user_offset_units: Real32,
    pub in_regions: Seq<Region>,
    pub out_regions: Seq<Region>,
    pub loop_range: Option<(u64, u64)>,
}

impl View for SectionTake {
    type V = SectionTakeView;

    open spec fn view(&self) -> SectionTakeView {
        SectionTakeView {
            armed: self.armed@,
            start_pulses: self.start_pulses,
            bpm: self.bpm,
            time_sig: self.time_sig,
            user_offset_units: self.user_offset_units,
            in_regions: self.in_regions@,
            out_regions: self.out_regions@,
            loop_range: self.loop_range,
        }
    }
}

/// A copy of regions.
pub fn copy_regions(v: &Vec<Region>) -> (r: Vec<Region>)
    ensures
        r@ == v@,
{
    let mut out: Vec<Region> = Vec::new();
    let mut i: usize = 0;
    while i < v.len()
        invariant
            0 <= i <= v@.len(),
            out@ =~= v@.take(i as int),
        decreases v@.len() - i,
    {
        out.push(v[i]);
        i += 1;
    }
    out
}

/// A copy of source numbers.
pub fn copy_sources(v: &Vec<usize>) -> (r: Vec<usize>)
    ensures
        r@ == v@,
{
    let mut out: Vec<usize> = Vec::new();
    let mut i: usize = 0;
    while i < v.len()
        invariant
            0 <= i <= v@.len(),
            out@ =~= v@.take(i as int),
        decreases v@.len() - i,
    {
        out.push(v[i]);
        i += 1;
    }
    out
}

impl Clone for SectionTake {
    fn clone(&self) -> (r: Self)
        ensures
            r@ == self@,
    {
        SectionTake {
            armed: copy_sources(&self.armed),
            start_pulses: self.start_pulses,
            bpm: self.bpm,
            time_sig: self.time_sig,
            user_offset_units: self.user_offset_units,
            in_regions: copy_regions(&self.in_regions),
            out_regions: copy_regions(&self.out_regions),
            loop_range: self.loop_range,
        }
    }
}

// Regions in order.

/// Where a region that begins at `begin` goes among regions in order: behind
/// all that begin no later.
pub open spec fn place(s: Seq<Region>, begin: u64) -> int
    decreases s.len(),
{
    if s.len() == 0 || s.last().begin_frames <= begin {
        s.len() as int
    } else {
        place(s.drop_last(), begin)
    }
}

/// The regions in the order of their begins; those that begin at the same
/// frame stay in the order they had.
pub open spec fn by_begin(s: Seq<Region>) -> Seq<Region>
    decreases s.len(),
{
    if s.len() == 0 {
        Seq::empty()
    } else {
        let t = by_begin(s.drop_last());
        t.insert(place(t, s.last().begin_frames), s.last())
    }
}

/// No region begins before one that stands in front of it.
pub open spec fn in_order(s: Seq<Region>) -> bool {
    forall|i: int, j: int|
        0 <= i < j < s.len() ==> (#[trigger] s[i]).begin_frames <= (#[trigger] s[j]).begin_frames
}

proof fn lemma_place(s: Seq<Region>, begin: u64)
    ensures
        0 <= place(s, begin) <= s.len(),
        place(s, begin) > 0 ==> s[place(s, begin) - 1].begin_frames <= begin,
        forall|i: int|
            place(s, begin) <= i < s.len() ==> begin < (#[trigger] s[i]).begin_frames,
    decreases s.len(),
{
    if s.len() > 0 && s.last().begin_frames > begin {
        lemma_place(s.drop_last(), begin);
        let t = s.drop_last();
        let p = place(s, begin);
        assert(p == place(t, begin));
        assert forall|i: int| p <= i < s.len() implies begin < (#[trigger] s[i]).begin_frames by {
            if i < t.len() {
                assert(t[i] == s[i]);
            }
        }
    }
}

proof fn lemma_place_take(s: Seq<Region>, begin: u64, n: int)
    requires
        0 <= n <= s.len(),
        forall|i: int| n <= i < s.len() ==> begin < (#[trigger] s[i]).begin_frames,
    ensures
        place(s, begin) == place(s.take(n), begin),
    decreases s.len() - n,
{
    if n < s.len() {
        let t = s.drop_last();
        assert(s.last().begin_frames > begin) by {
            assert(begin < s[s.len() - 1].begin_frames);
        }
        assert forall|i: int| n <= i < t.len() implies begin < (#[trigger] t[i]).begin_frames by {
            assert(t[i] == s[i]);
        }
        lemma_place_take(t, begin, n);
        assert(t.take(n) =~= s.take(n));
    } else {
        assert(s.take(n) =~= s);
    }
}

/// The regions in the order of their begins.
pub fn sort_by_begin(v: &Vec<Region>) -> (r: Vec<Region>)
    ensures
        r@ == by_begin(v@),
{
    let mut out: Vec<Region> = Vec::new();
    let mut i: usize = 0;
    assert(v@.take(0) =~= Seq::empty());
    while i < v.len()
        invariant
            0 <= i <= v@.len(),
            out@ == by_begin(v@.take(i as int)),
        decreases v@.len() - i,
    {
        let r = v[i];
        let mut p: usize = out.len();
        while p > 0 && out[p - 1].begin_frames > r.begin_frames
            invariant
                0 <= p <= out@.len(),
                forall|k: int|
                    p <= k < out@.len() ==> r.begin_frames < (#[trigger] out@[k]).begin_frames,
            decreases p,
        {
            p -= 1;
        }
        proof {
            lemma_place_take(out@, r.begin_frames, p as int);
            assert(place(out@, r.begin_frames) == p) by {
                let t = out@.take(p as int);
                if p > 0 {
                    assert(t.last() == out@[p - 1]);
                }
            }
            assert(v@.take(i + 1).drop_last() =~= v@.take(i as int));
        }
        out.insert(p, r);
        i += 1;
    }
    assert(v@.take(i as int) =~= v@);
    out
}

// Exits at every so many bars.

/// Fade and group of new regions.
#[derive(Debug, Clone, Copy, PartialEq, Eq, Structural)]
pub struct RegionStyle {
    pub fade_pct: Real32,
    pub fade_shape: Real32,
    pub group: u32,
}

/// The bars of a take, in frames: where the first begins, from which to the
/// next exit, and how long one is.
#[derive(Debug, Clone, Copy, PartialEq, Eq, Structural)]
pub struct BarGrid {
    pub first: u64,
    pub interval: u64,
    pub bar: u64,
}

/// How far it is from `pos` to `end`; nothing where that is behind.
pub open spec fn ahead(pos: int, end: int) -> int {
    if pos < end {
        end - pos
    } else {
        0
    }
}

/// The first of the places `pos`, `pos + interval`, ... that is not before
/// `from`.
pub open spec fn first_at(pos: int, interval: int, from: int) -> int
    decreases ahead(pos, from),
{
    if interval <= 0 || pos >= from {
        pos
    } else {
        first_at(pos + interval, interval, from)
    }
}

/// An exit that begins at `pos` and fades over a bar.
pub open spec fn exit_at(pos: int, bar: int, style: RegionStyle) -> Region {
    Region {
        group: style.group,
        ..Region::exit(pos as u64, (pos + bar) as u64, style.fade_pct, style.fade_shape)
    }
}

/// The exits at `pos`, `pos + interval`, ... before `to` that leave more than
/// a frame to `limit`.
pub open spec fn exits_from(
    pos: int,
    grid: BarGrid,
    to: int,
    limit: int,
    style: RegionStyle,
) -> Seq<Region>
    decreases ahead(pos, to),
{
    if grid.interval == 0 || pos >= to || pos + 1 >= limit {
        Seq::empty()
    } else {
        seq![exit_at(pos, grid.bar as int, style)] + exits_from(
            pos + grid.interval,
            grid,
            to,
            limit,
            style,
        )
    }
}

/// The exits between two frames of a take of `len` frames: on the grid, where
/// there is one.
pub open spec fn exits_between(
    grid: Option<BarGrid>,
    from: u64,
    to: u64,
    len: u64,
    style: RegionStyle,
) -> Seq<Region> {
    match grid {
        Some(g) => exits_from(
            first_at(g.first as int, g.interval as int, from as int),
            g,
            to as int,
            if len < to {
                to as int
            } else {
                len as int
            },
            style,
        ),
        None => Seq::empty(),
    }
}

/// The frames that the exits reach fit in 64 bits.
pub open spec fn exits_fit(grid: Option<BarGrid>, from: u64, to: u64) -> bool {
    grid matches Some(g) ==> from + g.interval <= u64::MAX && to + g.interval <= u64::MAX && to
        + g.bar <= u64::MAX
}

/// Whether the exits of a grid stay in range.
pub(crate) fn exits_go(grid: &Option<BarGrid>, from: u64, to: u64) -> (r: bool)
    ensures
        r == exits_fit(*grid, from, to),
{
    match grid {
        Some(g) => from <= u64::MAX - g.interval && to <= u64::MAX - g.interval && to <= u64::MAX
            - g.bar,
        None => true,
    }
}

/// Exits on the grid between two frames of a take.
pub fn generate_out_regions(
    grid: Option<BarGrid>,
    from: u64,
    to: u64,
    len: u64,
    style: RegionStyle,
) -> (r: Vec<Region>)
    requires
        exits_fit(grid, from, to),
    ensures
        r@ == exits_between(grid, from, to, len, style),
{
    let mut out: Vec<Region> = Vec::new();
    if let Some(g) = grid {
        if g.interval == 0 {
            assert(out@ =~= exits_between(grid, from, to, len, style));
            return out;
        }
        let mut pos: u64 = g.first;
        while pos < from
            invariant
                g.interval > 0,
                from + g.interval <= u64::MAX,
                first_at(pos as int, g.interval as int, from as int) == first_at(
                    g.first as int,
                    g.interval as int,
                    from as int,
                ),
            decreases ahead(pos as int, from as int),
        {
            pos = pos + g.interval;
        }
        let limit: u64 = if len < to {
            to
        } else {
            len
        };
        let ghost all = exits_from(pos as int, g, to as int, limit as int, style);
        assert(out@ + all =~= all);
        while pos < to && pos + 1 < limit
            invariant
                g.interval > 0,
                to + g.interval <= u64::MAX,
                to + g.bar <= u64::MAX,
                out@ + exits_from(pos as int, g, to as int, limit as int, style) =~= all,
            decreases ahead(pos as int, to as int),
        {
            let mut r = Region::new_out(pos, pos + g.bar, style.fade_pct, style.fade_shape);
            r.group = style.group;
            assert(r == exit_at(pos as int, g.bar as int, style));
            out.push(r);
            pos = pos + g.interval;
        }
        assert(out@ =~= all);
    }
    assert(out@ =~= exits_between(grid, from, to, len, style));
    out
}

/// The regions that do not begin between `a` and `b`.
pub open spec fn outside(s: Seq<Region>, a: u64, b: u64) -> Seq<Region> {
    s.filter(|r: Region| r.begin_frames < a || r.begin_frames > b)
}

fn keep_outside(v: &Vec<Region>, a: u64, b: u64) -> (r: Vec<Region>)
    ensures
        r@ == outside(v@, a, b),
{
    let ghost f = |r: Region| r.begin_frames < a || r.begin_frames > b;
    let mut out: Vec<Region> = Vec::new();
    let mut i: usize = 0;
    proof {
        reveal(Seq::filter);
        assert(v@.take(0) =~= Seq::empty());
    }
    while i < v.len()
        invariant
            0 <= i <= v@.len(),
            f == (|r: Region| r.begin_frames < a || r.begin_frames > b),
            out@ == v@.take(i as int).filter(f),
        decreases v@.len() - i,
    {
        proof {
            reveal(Seq::filter);
            assert(v@.take(i + 1).drop_last() =~= v@.take(i as int));
        }
        if v[i].begin_frames < a || v[i].begin_frames > b {
            out.push(v[i]);
        }
        i += 1;
    }
    assert(v@.take(i as int) =~= v@);
    out
}

impl SectionTakeView {
    /// With an entry that ends at `pos`, `span` frames long where there is
    /// room.
    pub open spec fn with_entry(self, pos: u64, span: u64, style: RegionStyle) -> SectionTakeView {
        let begin = if pos >= span {
            (pos - span) as u64
        } else {
            0
        };
        let r = Region {
            group: style.group,
            ..Region::entry(begin, pos, style.fade_pct, style.fade_shape)
        };
        SectionTakeView { in_regions: by_begin(self.in_regions.push(r)), ..self }
    }

    /// With an exit that begins at `pos`, `span` frames long.
    pub open spec fn with_exit(self, pos: u64, span: u64, style: RegionStyle) -> SectionTakeView {
        let r = exit_at(pos as int, span as int, style);
        SectionTakeView { out_regions: by_begin(self.out_regions.push(r)), ..self }
    }

    /// With these exits in place of those that begin between `a` and `b`.
    pub open spec fn with_exits_in(self, a: u64, b: u64, exits: Seq<Region>) -> SectionTakeView {
        SectionTakeView {
            out_regions: by_begin(outside(self.out_regions, a, b) + exits),
            ..self
        }
    }

    /// With the loop window beginning at `pos`; its end moves behind that.
    pub open spec fn with_loop_begin(self, pos: u64) -> SectionTakeView {
        let end = match self.loop_range {
            Some((_, e)) => e,
            None => u64::MAX,
        };
        SectionTakeView {
            loop_range: Some(
                (
                    pos,
                    if end <= pos {
                        (pos + 1) as u64
                    } else {
                        end
                    },
                ),
            ),
            ..self
        }
    }

    /// With the loop window ending at `pos`; its begin moves before that.
    pub open spec fn with_loop_end(self, pos: u64) -> SectionTakeView {
        let begin = match self.loop_range {
            Some((b, _)) => b,
            None => 0,
        };
        SectionTakeView {
            loop_range: Some(
                (
                    if begin >= pos {
                        if pos == 0 {
                            0
                        } else {
                            (pos - 1) as u64
                        }
                    } else {
                        begin
                    },
                    pos,
                ),
            ),
            ..self
        }
    }

    /// The geometry of the section: Main loops its window, or else all of it.
    pub open spec fn shape(self, kind: SectionKind, len: u64) -> SectionShape {
        SectionShape {
            kind,
            length: len,
            loop_range: if kind == SectionKind::Main {
                match self.loop_range {
                    Some(w) => Some(w),
                    None => Some((0, len)),
                }
            } else {
                None
            },
            in_regions: self.in_regions,
            out_regions: self.out_regions,
        }
    }

    /// What a session keeps of the take.
    pub open spec fn kept(self) -> TakeView {
        TakeView {
            armed: self.armed,
            start_pulses: self.start_pulses,
            bpm: self.bpm,
            time_sig_num: self.time_sig,
            take_user_offset_units: self.user_offset_units,
        }
    }
}

/// A take of which only what a session keeps is known.
pub open spec fn bare_take(t: TakeView) -> SectionTakeView {
    SectionTakeView {
        armed: t.armed,
        start_pulses: t.start_pulses,
        bpm: t.bpm,
        time_sig: t.time_sig_num,
        user_offset_units: t.take_user_offset_units,
        in_regions: Seq::empty(),
        out_regions: Seq::empty(),
        loop_range: None,
    }
}

impl SectionTake {
    /// Add an entry that ends at `pos`.
    pub fn add_entry(&mut self, pos: u64, span: u64, style: RegionStyle)
        ensures
            final(self)@ == old(self)@.with_entry(pos, span, style),
    {
        let begin: u64 = if pos >= span {
            pos - span
        } else {
            0
        };
        let mut r = Region::new_in(begin, pos, style.fade_pct, style.fade_shape);
        r.group = style.group;
        self.in_regions.push(r);
        self.in_regions = sort_by_begin(&self.in_regions);
    }

    /// Add an exit that begins at `pos`.
    pub fn add_exit(&mut self, pos: u64, span: u64, style: RegionStyle)
        requires
            pos + span <= u64::MAX,
        ensures
            final(self)@ == old(self)@.with_exit(pos, span, style),
    {
        let mut r = Region::new_out(pos, pos + span, style.fade_pct, style.fade_shape);
        r.group = style.group;
        self.out_regions.push(r);
        self.out_regions = sort_by_begin(&self.out_regions);
    }

    /// Put these exits in place of those that begin between `a` and `b`.
    pub fn replace_exits(&mut self, a: u64, b: u64, exits: Vec<Region>)
        ensures
            final(self)@ == old(self)@.with_exits_in(a, b, exits@),
    {
        let mut all = keep_outside(&self.out_regions, a, b);
        let mut more = exits;
        all.append(&mut more);
        self.out_regions = sort_by_begin(&all);
    }

    pub fn set_loop_begin(&mut self, pos: u64)
        requires
            pos < u64::MAX,
        ensures
            final(self)@ == old(self)@.with_loop_begin(pos),
    {
        let end: u64 = match self.loop_range {
            Some((_, e)) => e,
            None => u64::MAX,
        };
        self.loop_range = Some(
            (
                pos,
                if end <= pos {
                    pos + 1
                } else {
                    end
                },
            ),
        );
    }

    pub fn set_loop_end(&mut self, pos: u64)
        ensures
            final(self)@ == old(self)@.with_loop_end(pos),
    {
        let begin: u64 = match self.loop_range {
            Some((b, _)) => b,
            None => 0,
        };
        self.loop_range = Some(
            (
                if begin >= pos {
                    if pos == 0 {
                        0
                    } else {
                        pos - 1
                    }
                } else {
                    begin
                },
                pos,
            ),
        );
    }

    /// The geometry of the section that this is the take of.
    pub fn geometry(&self, kind: SectionKind, len: u64) -> (r: AdaptiveSection)
        ensures
            r@ == self@.shape(kind, len),
    {
        let loop_range = match kind {
            SectionKind::Main => match self.loop_range {
                Some(w) => Some(w),
                None => Some((0, len)),
            },
            _ => None,
        };
        AdaptiveSection {
            kind,
            length: len,
            loop_range,
            in_regions: copy_regions(&self.in_regions),
            out_regions: copy_regions(&self.out_regions),
        }
    }

    /// What a session keeps of the take.
    pub fn state(&self) -> (r: TakeState)
        ensures
            r@ == self@.kept(),
    {
        TakeState {
            armed: copy_sources(&self.armed),
            start_pulses: self.start_pulses,
            bpm: self.bpm,
            time_sig_num: self.time_sig,
            take_user_offset_units: self.user_offset_units,
        }
    }

    /// The take that a session kept.
    pub fn from_state(t: TakeState) -> (r: Self)
        ensures
            r@ == bare_take(t@),
    {
        let r = SectionTake {
            armed: t.armed,
            start_pulses: t.start_pulses,
            bpm: t.bpm,
            time_sig: t.time_sig_num,
            user_offset_units: t.take_user_offset_units,
            in_regions: Vec::new(),
            out_regions: Vec::new(),
            loop_range: None,
        };
        assert(r@ =~= bare_take(t@));
        r
    }
}

// The takes of all sections.

/// The takes, by the role of their section.
#[derive(Debug)]
pub struct SectionTakes {
    pub intro: Option<SectionTake>,
    pub main: Option<SectionTake>,
    pub outro: Option<SectionTake>,
}

/// The contents of a [`SectionTakes`].
#[verifier::ext_equal]
pub struct TakesView {
    pub intro: Option<SectionTakeView>,
    pub main: Option<SectionTakeView>,
    pub outro: Option<SectionTakeView>,
}

/// The contents of a take that may not be there.
pub open spec fn take_view(t: Option<SectionTake>) -> Option<SectionTakeView> {
    match t {
        Some(t) => Some(t@),
        None => None,
    }
}

impl View for SectionTakes {
    type V = TakesView;

    open spec fn view(&self) -> TakesView {
        TakesView {
            intro: take_view(self.intro),
            main: take_view(self.main),
            outro: take_view(self.outro),
        }
    }
}

/// No section has a take.
pub open spec fn no_takes() -> TakesView {
    TakesView { intro: None, main: None, outro: None }
}

impl TakesView {
    pub open spec fn get(self, kind: SectionKind) -> Option<SectionTakeView> {
        match kind {
            SectionKind::Intro => self.intro,
            SectionKind::Main => self.main,
            SectionKind::Outro => self.outro,
        }
    }

    pub open spec fn with(self, kind: SectionKind, t: SectionTakeView) -> TakesView {
        match kind {
            SectionKind::Intro => TakesView { intro: Some(t), ..self },
            SectionKind::Main => TakesView { main: Some(t), ..self },
            SectionKind::Outro => TakesView { outro: Some(t), ..self },
        }
    }

    /// How many sections have a take.
    pub open spec fn count(self) -> int {
        (if self.intro is Some {
            1int
        } else {
            0
        }) + (if self.main is Some {
            1int
        } else {
            0
        }) + (if self.outro is Some {
            1int
        } else {
            0
        })
    }

    /// The first section that has a take, or Main.
    pub open spec fn first(self) -> SectionKind {
        if self.intro is Some {
            SectionKind::Intro
        } else if self.main is Some {
            SectionKind::Main
        } else if self.outro is Some {
            SectionKind::Outro
        } else {
            SectionKind::Main
        }
    }

    /// Main where it has a take, or else the first section that has.
    pub open spec fn preferred(self) -> SectionKind {
        if self.main is Some {
            SectionKind::Main
        } else {
            self.first()
        }
    }

    /// The takes in the order Intro, Main, Outro, as a session keeps them.
    pub open spec fn kept(self) -> Seq<(SectionKind, TakeView)> {
        (match self.intro {
            Some(t) => seq![(SectionKind::Intro, t.kept())],
            None => Seq::empty(),
        }) + (match self.main {
            Some(t) => seq![(SectionKind::Main, t.kept())],
            None => Seq::empty(),
        }) + (match self.outro {
            Some(t) => seq![(SectionKind::Outro, t.kept())],
            None => Seq::empty(),
        })
    }
}

/// The takes with those of a list put in, one after the other.
pub open spec fn with_all(t: TakesView, s: Seq<(SectionKind, TakeView)>) -> TakesView
    decreases s.len(),
{
    if s.len() == 0 {
        t
    } else {
        with_all(t, s.drop_last()).with(s.last().0, bare_take(s.last().1))
    }
}

impl SectionTakes {
    pub fn new() -> (r: Self)
        ensures
            r@ == no_takes(),
    {
        SectionTakes { intro: None, main: None, outro: None }
    }

    pub fn get(&self, kind: SectionKind) -> (r: Option<&SectionTake>)
        ensures
            match r {
                Some(t) => self@.get(kind) == Some(t@),
                None => self@.get(kind) is None,
            },
    {
        match kind {
            SectionKind::Intro => match &self.intro {
                Some(t) => Some(t),
                None => None,
            },
            SectionKind::Main => match &self.main {
                Some(t) => Some(t),
                None => None,
            },
            SectionKind::Outro => match &self.outro {
                Some(t) => Some(t),
                None => None,
            },
        }
    }

    /// The take of a section, to be changed.
    pub fn get_mut(&mut self, kind: SectionKind) -> (r: Option<&mut SectionTake>)
        ensures
            match r {
                Some(t) => old(self)@.get(kind) == Some(t@) && final(self)@ == old(self)@.with(
                    kind,
                    final(t)@,
                ),
                None => old(self)@.get(kind) is None && final(self)@ == old(self)@,
            },
    {
        match kind {
            SectionKind::Intro => match &mut self.intro {
                Some(t) => Some(t),
                None => None,
            },
            SectionKind::Main => match &mut self.main {
                Some(t) => Some(t),
                None => None,
            },
            SectionKind::Outro => match &mut self.outro {
                Some(t) => Some(t),
                None => None,
            },
        }
    }

    /// Put the take of a section in place of what was there.
    pub fn insert(&mut self, kind: SectionKind, take: SectionTake)
        ensures
            final(self)@ == old(self)@.with(kind, take@),
    {
        match kind {
            SectionKind::Intro => {
                self.intro = Some(take);
            },
            SectionKind::Main => {
                self.main = Some(take);
            },
            SectionKind::Outro => {
                self.outro = Some(take);
            },
        }
    }

    /// How many sections have a take.
    pub fn count(&self) -> (r: usize)
        ensures
            r == self@.count(),
    {
        let mut n: usize = 0;
        if self.intro.is_some() {
            n += 1;
        }
        if self.main.is_some() {
            n += 1;
        }
        if self.outro.is_some() {
            n += 1;
        }
        n
    }

    /// The first section that has a take, or Main.
    pub fn first(&self) -> (r: SectionKind)
        ensures
            r == self@.first(),
    {
        if self.intro.is_some() {
            SectionKind::Intro
        } else if self.main.is_some() {
            SectionKind::Main
        } else if self.outro.is_some() {
            SectionKind::Outro
        } else {
            SectionKind::Main
        }
    }

    /// Main where it has a take, or else the first section that has.
    pub fn preferred(&self) -> (r: SectionKind)
        ensures
            r == self@.preferred(),
    {
        if self.main.is_some() {
            SectionKind::Main
        } else {
            self.first()
        }
    }

    /// The takes in the order Intro, Main, Outro, as a session keeps them.
    pub fn states(&self) -> (r: Vec<(SectionKind, TakeState)>)
        ensures
            crate::session::take_views(r@) == self@.kept(),
    {
        let mut out: Vec<(SectionKind, TakeState)> = Vec::new();
        assert(crate::session::take_views(out@) =~= Seq::empty());
        if let Some(t) = &self.intro {
            out.push((SectionKind::Intro, t.state()));
        }
        let ghost a = out@;
        assert(crate::session::take_views(a) =~= match self@.intro {
            Some(t) => seq![(SectionKind::Intro, t.kept())],
            None => Seq::empty(),
        });
        if let Some(t) = &self.main {
            out.push((SectionKind::Main, t.state()));
        }
        let ghost b = out@;
        assert(crate::session::take_views(b) =~= crate::session::take_views(a) + match self@.main {
            Some(t) => seq![(SectionKind::Main, t.kept())],
            None => Seq::empty(),
        });
        if let Some(t) = &self.outro {
            out.push((SectionKind::Outro, t.state()));
        }
        assert(crate::session::take_views(out@) =~= crate::session::take_views(b)
            + match self@.outro {
            Some(t) => seq![(SectionKind::Outro, t.kept())],
            None => Seq::empty(),
        });
        out
    }

    /// The takes that a session kept: of several of one section the last.
    pub fn from_states(states: Vec<(SectionKind, TakeState)>) -> (r: Self)
        ensures
            r@ == with_all(no_takes(), crate::session::take_views(states@)),
    {
        let ghost all = crate::session::take_views(states@);
        let mut r = SectionTakes::new();
        let mut i: usize = 0;
        assert(all.take(0) =~= Seq::empty());
        while i < states.len()
            invariant
                0 <= i <= states@.len(),
                all == crate::session::take_views(states@),
                r@ == with_all(no_takes(), all.take(i as int)),
            decreases states@.len() - i,
        {
            assert(all.take(i + 1).drop_last() =~= all.take(i as int));
            assert(all[i as int] == (states@[i as int].0, states@[i as int].1@));
            r.insert(states[i].0, SectionTake::from_state(states[i].1.clone()));
            i += 1;
        }
        assert(all.take(i as int) =~= all);
        r
    }
}

// Laws.

proof fn lemma_insert_in_order(s: Seq<Region>, r: Region)
    requires
        in_order(s),
    ensures
        in_order(s.insert(place(s, r.begin_frames), r)),
{
    lemma_place(s, r.begin_frames);
    let p = place(s, r.begin_frames);
    let t = s.insert(p, r);
    assert forall|i: int, j: int| 0 <= i < j < t.len() implies (#[trigger] t[i]).begin_frames <= (
    #[trigger] t[j]).begin_frames by {
        if p > 0 && i < p {
            assert(s[i].begin_frames <= s[p - 1].begin_frames || i == p - 1);
        }
    }
}

/// Regions in order of their begins: they are in order, and of those that
/// begin at any one frame the same stand there as before, in the same order.
pub proof fn sorting_orders_and_keeps(s: Seq<Region>, begin: u64)
    ensures
        in_order(by_begin(s)),
        by_begin(s).filter(|r: Region| r.begin_frames == begin) == s.filter(
            |r: Region| r.begin_frames == begin,
        ),
        by_begin(s).len() == s.len(),
    decreases s.len(),
{
    reveal(Seq::filter);
    let f = |r: Region| r.begin_frames == begin;
    if s.len() > 0 {
        let t = s.drop_last();
        let x = s.last();
        sorting_orders_and_keeps(t, begin);
        let o = by_begin(t);
        lemma_place(o, x.begin_frames);
        lemma_insert_in_order(o, x);
        let p = place(o, x.begin_frames);
        lemma_filter_insert(o, p, x, f);
        if f(x) {
            assert forall|i: int| 0 <= i < o.skip(p).len() implies !f(#[trigger] o.skip(p)[i]) by {
                assert(o.skip(p)[i] == o[p + i]);
            }
            lemma_filter_none(o.skip(p), f);
        }
        lemma_filter_split(o, p, f);
    }
}

proof fn lemma_filter_none(s: Seq<Region>, f: spec_fn(Region) -> bool)
    requires
        forall|i: int| 0 <= i < s.len() ==> !f(#[trigger] s[i]),
    ensures
        s.filter(f) =~= Seq::empty(),
    decreases s.len(),
{
    reveal(Seq::filter);
    if s.len() > 0 {
        assert(!f(s[s.len() - 1]));
        let t = s.drop_last();
        assert forall|i: int| 0 <= i < t.len() implies !f(#[trigger] t[i]) by {
            assert(!f(s[i]));
        }
        lemma_filter_none(t, f);
    }
}

proof fn lemma_filter_split(s: Seq<Region>, p: int, f: spec_fn(Region) -> bool)
    requires
        0 <= p <= s.len(),
    ensures
        s.filter(f) =~= s.take(p).filter(f) + s.skip(p).filter(f),
    decreases s.len() - p,
{
    reveal(Seq::filter);
    if p == s.len() {
        assert(s.take(p) =~= s);
        assert(s.skip(p) =~= Seq::empty());
    } else {
        let t = s.drop_last();
        lemma_filter_split(t, p, f);
        assert(t.take(p) =~= s.take(p));
        assert(s.skip(p).drop_last() =~= t.skip(p));
        assert(s.skip(p).last() == s.last());
    }
}

proof fn lemma_filter_insert(s: Seq<Region>, p: int, x: Region, f: spec_fn(Region) -> bool)
    requires
        0 <= p <= s.len(),
    ensures
        s.insert(p, x).filter(f) =~= s.take(p).filter(f) + (if f(x) {
            seq![x]
        } else {
            Seq::empty()
        }) + s.skip(p).filter(f),
{
    reveal(Seq::filter);
    let t = s.insert(p, x);
    lemma_filter_split(t, p + 1, f);
    let head = t.take(p + 1);
    assert(head.drop_last() =~= s.take(p));
    assert(head.last() == x);
    assert(t.skip(p + 1) =~= s.skip(p));
}

proof fn lemma_first_at(pos: int, interval: int, from: int)
    requires
        interval > 0,
    ensures
        first_at(pos, interval, from) >= from,
        first_at(pos, interval, from) >= pos,
        (first_at(pos, interval, from) - pos) % interval == 0,
        pos >= from ==> first_at(pos, interval, from) == pos,
    decreases ahead(pos, from),
{
    if pos < from {
        lemma_first_at(pos + interval, interval, from);
        let d = first_at(pos, interval, from) - (pos + interval);
        vstd::arithmetic::div_mod::lemma_mod_add_multiples_vanish(d, interval);
    } else {
        vstd::arithmetic::div_mod::lemma_small_mod(0, interval as nat);
    }
}

/// Exits begin on the grid, before `to`, one interval after another.
pub proof fn exits_lie_on_the_grid(
    pos: int,
    grid: BarGrid,
    to: int,
    limit: int,
    style: RegionStyle,
)
    requires
        0 <= pos,
        to <= u64::MAX,
    ensures
        ({
            let e = exits_from(pos, grid, to, limit, style);
            forall|i: int|
                0 <= i < e.len() ==> (#[trigger] e[i]).begin_frames == pos + i * grid.interval
                    && e[i].begin_frames < to && e[i].sync_frames == e[i].begin_frames
        }),
    decreases ahead(pos, to),
{
    if grid.interval > 0 && pos < to && pos + 1 < limit {
        exits_lie_on_the_grid(pos + grid.interval, grid, to, limit, style);
        let rest = exits_from(pos + grid.interval, grid, to, limit, style);
        let e = exits_from(pos, grid, to, limit, style);
        assert forall|i: int| 0 <= i < e.len() implies (#[trigger] e[i]).begin_frames == pos + i
            * grid.interval && e[i].begin_frames < to && e[i].sync_frames == e[i].begin_frames by {
            if i > 0 {
                assert(e[i] == rest[i - 1]);
                assert((i - 1) * grid.interval + grid.interval == i * grid.interval)
                    by (nonlinear_arith);
            } else {
                assert(e[0] == exit_at(pos, grid.bar as int, style));
                assert(0 * grid.interval == 0);
            }
        }
    }
}

/// Exits of a range begin in it, on a whole number of intervals behind the
/// first bar.
pub proof fn exits_lie_in_the_range(
    grid: BarGrid,
    from: u64,
    to: u64,
    len: u64,
    style: RegionStyle,
)
    ensures
        ({
            let e = exits_between(Some(grid), from, to, len, style);
            forall|i: int|
                0 <= i < e.len() ==> from <= (#[trigger] e[i]).begin_frames < to && (
                e[i].begin_frames - grid.first) % grid.interval as int == 0
        }),
{
    let limit = if len < to {
        to as int
    } else {
        len as int
    };
    if grid.interval > 0 {
        let pos = first_at(grid.first as int, grid.interval as int, from as int);
        lemma_first_at(grid.first as int, grid.interval as int, from as int);
        exits_lie_on_the_grid(pos, grid, to as int, limit, style);
        let e = exits_between(Some(grid), from, to, len, style);
        assert forall|i: int| 0 <= i < e.len() implies from <= (#[trigger] e[i]).begin_frames < to
            && (e[i].begin_frames - grid.first) % grid.interval as int == 0 by {
            assert(e[i].begin_frames == pos + i * grid.interval);
            assert(0 <= i * grid.interval) by (nonlinear_arith)
                requires
                    0 <= i,
            ;
            vstd::arithmetic::div_mod::lemma_mod_multiples_vanish(
                i,
                pos - grid.first,
                grid.interval as int,
            );
            assert(grid.interval * i == i * grid.interval) by (nonlinear_arith);
        }
    }
}

/// After its begin is set, the loop window is not empty; nor after its end is
/// set, but at the first frame.
pub proof fn loop_window_is_not_empty(t: SectionTakeView, pos: u64)
    requires
        pos < u64::MAX,
    ensures
        t.with_loop_begin(pos).loop_range matches Some((b, e)) && b == pos && b < e,
        t.with_loop_end(pos).loop_range matches Some((b, e)) && e == pos && (pos > 0 ==> b < e),
{
}

/// Setting the end of a loop behind its begin keeps the begin, and setting the
/// begin before its end keeps the end. A window that has no begin yet begins at
/// the first frame, and one that has no end yet has none at all. Where the two
/// would cross, the other one is moved to the next frame. Nothing else of the
/// take changes.
pub proof fn loop_bounds_are_set_one_by_one(t: SectionTakeView, pos: u64)
    requires
        pos < u64::MAX,
    ensures
        t.with_loop_begin(pos).loop_range matches Some((b, e)) && b == pos && match t.loop_range {
            Some((_, end)) => if pos < end {
                e == end
            } else {
                e == pos + 1
            },
            None => e == u64::MAX,
        },
        t.with_loop_end(pos).loop_range matches Some((b, e)) && e == pos && match t.loop_range {
            Some((begin, _)) => if begin < pos {
                b == begin
            } else {
                b + 1 == pos || (b == 0 && pos == 0)
            },
            None => b == 0,
        },
        (SectionTakeView { loop_range: t.loop_range, ..t.with_loop_begin(pos) }) == t,
        (SectionTakeView { loop_range: t.loop_range, ..t.with_loop_end(pos) }) == t,
{
}

/// A window that is set by its begin and its end, in whichever order, is the
/// window between them.
pub proof fn loop_windows_are_set(t: SectionTakeView, begin: u64, end: u64)
    requires
        begin < end,
    ensures
        t.with_loop_begin(begin).with_loop_end(end).loop_range == Some((begin, end)),
        t.with_loop_end(end).with_loop_begin(begin).loop_range == Some((begin, end)),
{
}

/// The regions of a list that are equal to `r`.
pub open spec fn times_in(s: Seq<Region>, r: Region) -> nat {
    s.to_multiset().count(r)
}

/// Adding an entry adds one region, in order, to those that are there: it ends
/// and is in sync where it was asked for, and begins `span` frames earlier or
/// at the first frame. Nothing else of the take changes.
pub proof fn an_entry_is_added(t: SectionTakeView, pos: u64, span: u64, style: RegionStyle, other: Region)
    ensures
        ({
            let u = t.with_entry(pos, span, style);
            exists|r: Region|
                {
                    &&& r.end_frames == pos && r.sync_frames == pos
                    &&& r.begin_frames == if span <= pos {
                        pos - span
                    } else {
                        0
                    }
                    &&& r.fade_pct == style.fade_pct && r.fade_shape == style.fade_shape && r.group
                        == style.group
                    &&& #[trigger] times_in(u.in_regions, r) == times_in(t.in_regions, r) + 1
                    &&& other != r ==> times_in(u.in_regions, other) == times_in(
                        t.in_regions,
                        other,
                    )
                }
        }),
        in_order(t.with_entry(pos, span, style).in_regions),
        (SectionTakeView { in_regions: t.in_regions, ..t.with_entry(pos, span, style) }) == t,
{
    broadcast use vstd::seq_lib::group_to_multiset_ensures;

    let begin = if pos >= span {
        (pos - span) as u64
    } else {
        0
    };
    let r = Region {
        group: style.group,
        ..Region::entry(begin, pos, style.fade_pct, style.fade_shape)
    };
    lemma_sorted_counts(t.in_regions.push(r));
    sorting_orders_and_keeps(t.in_regions.push(r), 0);
    let u = t.with_entry(pos, span, style);
    assert(times_in(u.in_regions, r) == times_in(t.in_regions, r) + 1);
}

/// Adding an exit adds one region, in order, to those that are there: it begins
/// and is in sync where it was asked for, and ends `span` frames later. Nothing
/// else of the take changes.
pub proof fn an_exit_is_added(t: SectionTakeView, pos: u64, span: u64, style: RegionStyle, other: Region)
    requires
        pos + span <= u64::MAX,
    ensures
        ({
            let u = t.with_exit(pos, span, style);
            exists|r: Region|
                {
                    &&& r.begin_frames == pos && r.sync_frames == pos && r.end_frames == pos + span
                    &&& r.fade_pct == style.fade_pct && r.fade_shape == style.fade_shape && r.group
                        == style.group
                    &&& #[trigger] times_in(u.out_regions, r) == times_in(t.out_regions, r) + 1
                    &&& other != r ==> times_in(u.out_regions, other) == times_in(
                        t.out_regions,
                        other,
                    )
                }
        }),
        in_order(t.with_exit(pos, span, style).out_regions),
        (SectionTakeView { out_regions: t.out_regions, ..t.with_exit(pos, span, style) }) == t,
{
    broadcast use vstd::seq_lib::group_to_multiset_ensures;

    let r = exit_at(pos as int, span as int, style);
    lemma_sorted_counts(t.out_regions.push(r));
    sorting_orders_and_keeps(t.out_regions.push(r), 0);
    let u = t.with_exit(pos, span, style);
    assert(times_in(u.out_regions, r) == times_in(t.out_regions, r) + 1);
}

/// Putting exits in place of those of a range takes away those that begin in
/// it, both ends included, keeps all others, and adds the new ones. The exits
/// are then in order, and nothing else of the take changes.
pub proof fn exits_of_a_range_are_replaced(
    t: SectionTakeView,
    a: u64,
    b: u64,
    exits: Seq<Region>,
    r: Region,
)
    ensures
        ({
            let u = t.with_exits_in(a, b, exits);
            &&& times_in(u.out_regions, r) == times_in(exits, r) + (if a <= r.begin_frames <= b {
                0
            } else {
                times_in(t.out_regions, r)
            })
            &&& in_order(u.out_regions)
            &&& (SectionTakeView { out_regions: t.out_regions, ..u }) == t
        }),
{
    let f = |x: Region| x.begin_frames < a || x.begin_frames > b;
    let kept = t.out_regions.filter(f);
    lemma_sorted_counts(kept + exits);
    sorting_orders_and_keeps(kept + exits, 0);
    vstd::seq_lib::lemma_multiset_commutative(kept, exits);
    lemma_filter_counts(t.out_regions, f, r);
}

proof fn lemma_sorted_counts(s: Seq<Region>)
    ensures
        by_begin(s).to_multiset() == s.to_multiset(),
    decreases s.len(),
{
    broadcast use vstd::seq_lib::group_to_multiset_ensures;

    if s.len() > 0 {
        let t = s.drop_last();
        let x = s.last();
        lemma_sorted_counts(t);
        lemma_place(by_begin(t), x.begin_frames);
        let k = place(by_begin(t), x.begin_frames);
        let u = by_begin(t);
        assert(u.insert(k, x) =~= u.take(k) + seq![x] + u.skip(k));
        assert(u =~= u.take(k) + u.skip(k));
        vstd::seq_lib::lemma_multiset_commutative(u.take(k), u.skip(k));
        vstd::seq_lib::lemma_multiset_commutative(u.take(k), seq![x]);
        vstd::seq_lib::lemma_multiset_commutative(u.take(k) + seq![x], u.skip(k));
        assert(seq![x] =~= Seq::<Region>::empty().push(x));
        assert(s =~= t.push(x));
        assert(by_begin(s).to_multiset() =~= s.to_multiset());
    } else {
        assert(by_begin(s) =~= s);
    }
}

proof fn lemma_filter_counts(s: Seq<Region>, f: spec_fn(Region) -> bool, r: Region)
    ensures
        s.filter(f).to_multiset().count(r) == if f(r) {
            s.to_multiset().count(r)
        } else {
            0
        },
    decreases s.len(),
{
    broadcast use vstd::seq_lib::group_to_multiset_ensures;

    reveal(Seq::filter);
    if s.len() > 0 {
        lemma_filter_counts(s.drop_last(), f, r);
        assert(s =~= s.drop_last().push(s.last()));
    }
}

/// Wherever the grid of a take has a place in a range, with more than a frame
/// behind it, an exit begins there. It is as long as a bar and has the style
/// that was asked for.
pub proof fn no_exit_of_the_grid_is_missing(
    grid: BarGrid,
    from: u64,
    to: u64,
    len: u64,
    style: RegionStyle,
    m: int,
)
    requires
        grid.interval > 0,
        m >= 0,
        ({
            let pos = grid.first + m * grid.interval;
            from <= pos < to && (pos + 1 < to || pos + 1 < len)
        }),
        to + grid.bar <= u64::MAX,
    ensures
        ({
            let pos = grid.first + m * grid.interval;
            exists|i: int|
                0 <= i < exits_between(Some(grid), from, to, len, style).len() && {
                    let r = #[trigger] exits_between(Some(grid), from, to, len, style)[i];
                    r.begin_frames == pos && r.sync_frames == pos && r.end_frames == pos + grid.bar
                        && r.fade_pct == style.fade_pct && r.fade_shape == style.fade_shape
                        && r.group == style.group
                }
        }),
{
    let iv = grid.interval as int;
    let pos = grid.first + m * iv;
    let start = first_at(grid.first as int, iv, from as int);
    lemma_first_at(grid.first as int, iv, from as int);
    lemma_first_at_least(grid.first as int, iv, from as int, m);
    let i = (pos - start) / iv;
    vstd::arithmetic::div_mod::lemma_fundamental_div_mod(pos - start, iv);
    assert((pos - start) % iv == 0) by {
        let k = (start - grid.first) / iv;
        vstd::arithmetic::div_mod::lemma_fundamental_div_mod(start - grid.first, iv);
        assert(pos - start == (m - k) * iv) by (nonlinear_arith)
            requires
                pos == grid.first + m * iv,
                start - grid.first == iv * k,
        ;
        vstd::arithmetic::div_mod::lemma_mod_multiples_basic(m - k, iv);
    }
    vstd::arithmetic::div_mod::lemma_div_pos_is_pos(pos - start, iv);
    assert(start + i * iv == pos) by (nonlinear_arith)
        requires
            pos - start == iv * i,
    ;
    let limit = if len < to {
        to as int
    } else {
        len as int
    };
    lemma_exits_reach(start, grid, to as int, limit, style, i);
    let e = exits_between(Some(grid), from, to, len, style);
    assert(e[i] == exit_at(pos, grid.bar as int, style));
}

proof fn lemma_first_at_least(pos: int, interval: int, from: int, m: int)
    requires
        interval > 0,
        m >= 0,
        pos + m * interval >= from,
    ensures
        first_at(pos, interval, from) <= pos + m * interval,
    decreases ahead(pos, from),
{
    if pos < from {
        assert(m >= 1) by (nonlinear_arith)
            requires
                pos < from,
                pos + m * interval >= from,
                interval > 0,
                m >= 0,
        ;
        assert(pos + m * interval == (pos + interval) + (m - 1) * interval) by (nonlinear_arith);
        lemma_first_at_least(pos + interval, interval, from, m - 1);
    } else {
        assert(m * interval >= 0) by (nonlinear_arith)
            requires
                m >= 0,
                interval > 0,
        ;
    }
}

proof fn lemma_exits_reach(
    pos: int,
    grid: BarGrid,
    to: int,
    limit: int,
    style: RegionStyle,
    i: int,
)
    requires
        grid.interval > 0,
        i >= 0,
        pos + i * grid.interval < to,
        pos + i * grid.interval + 1 < limit,
    ensures
        i < exits_from(pos, grid, to, limit, style).len(),
        exits_from(pos, grid, to, limit, style)[i] == exit_at(
            pos + i * grid.interval,
            grid.bar as int,
            style,
        ),
    decreases i,
{
    let iv = grid.interval as int;
    assert(i * iv >= 0) by (nonlinear_arith)
        requires
            i >= 0,
            iv > 0,
    ;
    if i > 0 {
        assert(pos + i * iv == (pos + iv) + (i - 1) * iv) by (nonlinear_arith);
        lemma_exits_reach(pos + iv, grid, to, limit, style, i - 1);
        let rest = exits_from(pos + iv, grid, to, limit, style);
        assert(exits_from(pos, grid, to, limit, style)[i] == rest[i - 1]);
    } else {
        assert(pos + i * iv == pos) by (nonlinear_arith)
            requires
                i == 0,
        ;
    }
}

/// Main loops its window, or all of it where none is set; the other sections do
/// not loop. A section is as long as its sound and is entered and left by the
/// regions of its take.
pub proof fn takes_shape_their_sections(t: SectionTakeView, kind: SectionKind, len: u64)
    ensures
        ({
            let s = t.shape(kind, len);
            &&& s.kind == kind && s.length == len
            &&& s.in_regions == t.in_regions && s.out_regions == t.out_regions
            &&& s.loop_range is Some <==> kind == SectionKind::Main
            &&& kind == SectionKind::Main && t.loop_range is Some ==> s.loop_range == t.loop_range
            &&& kind == SectionKind::Main && t.loop_range is None ==> (
            s.loop_range matches Some((b, e)) && b == 0 && e == len)
        }),
{
}

/// What a session keeps of a take is where it came from: sources, position,
/// tempo, meter and offset. Nothing of that changes on the way back.
pub proof fn a_take_is_kept(t: SectionTakeView)
    ensures
        t.kept().armed == t.armed,
        t.kept().start_pulses == t.start_pulses,
        t.kept().bpm == t.bpm,
        t.kept().time_sig_num == t.time_sig,
        t.kept().take_user_offset_units == t.user_offset_units,
        bare_take(t.kept()) == (SectionTakeView {
            in_regions: Seq::empty(),
            out_regions: Seq::empty(),
            loop_range: None,
            ..t
        }),
{
}

/// A section has one place for its take: putting one there changes no other
/// section's, and the last one that is put there counts.
pub proof fn each_section_has_its_take(
    t: TakesView,
    kind: SectionKind,
    x: SectionTakeView,
    other: SectionKind,
)
    ensures
        t.get(SectionKind::Intro) == t.intro,
        t.get(SectionKind::Main) == t.main,
        t.get(SectionKind::Outro) == t.outro,
        t.with(kind, x).get(kind) == Some(x),
        other != kind ==> t.with(kind, x).get(other) == t.get(other),
        t.with(kind, x).count() == t.count() + (if t.get(kind) is Some {
            0int
        } else {
            1
        }),
        no_takes().count() == 0,
        no_takes().get(kind) is None,
{
}

/// The section that goes first has a take, and no section before it does. Main
/// is preferred where it has one. Where no section has, both are Main.
pub proof fn the_first_section_has_a_take(t: TakesView, kind: SectionKind)
    ensures
        t.get(kind) is Some ==> t.get(t.first()) is Some && t.first().order() <= kind.order(),
        t.get(kind) is Some ==> t.get(t.preferred()) is Some,
        t.get(SectionKind::Main) is Some ==> t.preferred() == SectionKind::Main,
        t.get(SectionKind::Main) is None && t.get(kind) is Some ==> t.preferred().order()
            <= kind.order(),
        t.count() == 0 ==> t.first() == SectionKind::Main && t.preferred() == SectionKind::Main,
{
}

/// The takes are kept in the order Intro, Main, Outro, one for each section
/// that has one.
pub proof fn takes_are_kept_in_order(t: TakesView, i: int, j: int)
    ensures
        t.kept().len() == t.count(),
        0 <= i < j < t.kept().len() ==> t.kept()[i].0.order() < t.kept()[j].0.order(),
        0 <= i < t.kept().len() ==> (t.get(t.kept()[i].0) matches Some(x) && t.kept()[i].1
            == x.kept()),
{
}

/// What a session keeps of the takes comes back from it, but for the regions
/// and loop windows, which it does not keep.
pub proof fn kept_takes_come_back(t: TakesView)
    ensures
        ({
            let r = with_all(no_takes(), t.kept());
            forall|kind: SectionKind|
                #[trigger] r.get(kind) == match t.get(kind) {
                    Some(x) => Some(bare_take(x.kept())),
                    None => None,
                }
        }),
{
    reveal_with_fuel(with_all, 4);
    let a = match t.intro {
        Some(x) => seq![(SectionKind::Intro, x.kept())],
        None => Seq::empty(),
    };
    let b = match t.main {
        Some(x) => seq![(SectionKind::Main, x.kept())],
        None => Seq::empty(),
    };
    let c = match t.outro {
        Some(x) => seq![(SectionKind::Outro, x.kept())],
        None => Seq::empty(),
    };
    lemma_with_all_append(no_takes(), a + b, c);
    lemma_with_all_append(no_takes(), a, b);
}

proof fn lemma_with_all_append(
    t: TakesView,
    a: Seq<(SectionKind, TakeView)>,
    b: Seq<(SectionKind, TakeView)>,
)
    requires
        b.len() <= 1,
    ensures
        with_all(t, a + b) == if b.len() == 0 {
            with_all(t, a)
        } else {
            with_all(t, a).with(b[0].0, bare_take(b[0].1))
        },
{
    if b.len() == 0 {
        assert(a + b =~= a);
    } else {
        assert((a + b).drop_last() =~= a);
        assert((a + b).last() == b[0]);
    }
}

} // verus!
