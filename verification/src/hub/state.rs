//! The hub's state, and what each of its controls does to it. What touches
//! sound cards, files or the screen is told to the caller as an action.
use vstd::prelude::*;

use crate::adaptive::new_mixer;
use crate::adaptive::one;
use crate::adaptive::two;
use crate::adaptive::zero;
use crate::adaptive::AdaptiveMixer;
use crate::adaptive::MixerView;
use crate::adaptive::TWO_BITS;
use crate::asset::wlamodel::ParsedSection;
use crate::hub::bundle::brought_in;
use crate::hub::bundle::imported_take;
use crate::hub::bundle::is_sorted_of;
use crate::hub::bundle::sources_written;
use crate::hub::labels::imported_line;
use crate::hub::labels::imported_status;
use crate::hub::labels::loaded_line;
use crate::hub::labels::loaded_status;
use crate::hub::mixer::mixer_after;
use crate::hub::mixer::step_fits;
use crate::hub::mixer::step_goes;
use crate::hub::mixer::MixerEvent;
use crate::hub::takes::bare_take;
use crate::hub::takes::copy_regions;
use crate::hub::takes::copy_sources;
use crate::hub::takes::exits_between;
use crate::hub::takes::exits_fit;
use crate::hub::takes::exits_go;
use crate::hub::takes::generate_out_regions;
use crate::hub::takes::no_takes;
use crate::hub::takes::with_all;
use crate::hub::takes::BarGrid;
use crate::hub::takes::RegionStyle;
use crate::hub::takes::SectionTake;
use crate::hub::takes::SectionTakeView;
use crate::hub::takes::SectionTakes;
use crate::hub::takes::TakesView;
use crate::navigator::model::blank_meta;
use crate::navigator::model::AssetMeta;
use crate::navigator::model::AssetMetaView;
use crate::navigator::model::Region;
use crate::navigator::model::SectionKind;
use crate::number::Real32;
use crate::number::HALF_BITS;
use crate::number::ONE_BITS;
use crate::number::ZERO_BITS;
use crate::playback::Playback;
use crate::recording::ControlView;
use crate::recording::RecordState;
use crate::recording::RecordView;
use crate::recording::RecorderControl;
use crate::seqs::lemma_picked_append;
use crate::seqs::lemma_picked_one;
use crate::seqs::picked;
use crate::session::fresh_but_sections;
use crate::session::section_take;
use crate::session::take_sections;
use crate::session::SessionState;
use crate::session::SessionView;
use crate::text::blank;
use crate::text::is_blank;

verus! {

/// The bits of the smallest zoom.
pub const ZOOM_MIN_BITS: u32 = 0x3e19_999a;

/// The bits of the largest zoom.
pub const ZOOM_MAX_BITS: u32 = 0x4100_0000;

/// The bits of the lowest loudness that is aimed at.
pub const LUFS_MIN_BITS: u32 = 0xc220_0000;

/// The bits of the loudness that is aimed at first.
pub const LUFS_FIRST_BITS: u32 = 0xc160_0000;

/// The settings of the hub.
#[derive(Debug, Clone, Copy)]
pub struct Controls {
    pub num_sources: usize,
    pub zoom: Real32,
    /// Beats per bar.
    pub time_sig_num: u32,
    /// How far the loaded take was dragged, in bars or seconds.
    pub take_offset: Real32,
    pub snap_to_grid: bool,
    /// The loudness that is aimed at.
    pub target_lufs: Real32,
    pub popover_open: bool,
    /// Every how many bars exits are made.
    pub exit_bars: u32,
    pub region_fade_shape: Real32,
    pub region_fade_pct: Real32,
    pub region_group: u32,
    /// The range selected on the timeline, in frames.
    pub selection: Option<(u64, u64)>,
    pub current_section: SectionKind,
    /// The grid of the loaded take.
    pub start_pulses: u64,
    pub start_bpm: Real32,
    pub start_time_sig: u32,
}

impl Controls {
    /// Fade and group of new regions.
    pub open spec fn style_of(self) -> RegionStyle {
        RegionStyle {
            fade_pct: self.region_fade_pct,
            fade_shape: self.region_fade_shape,
            group: self.region_group,
        }
    }

    fn style(&self) -> (r: RegionStyle)
        ensures
            r == self.style_of(),
    {
        RegionStyle {
            fade_pct: self.region_fade_pct,
            fade_shape: self.region_fade_shape,
            group: self.region_group,
        }
    }
}

/// The settings at first.
pub open spec fn first_controls() -> Controls {
    Controls {
        num_sources: 0,
        zoom: one(),
        time_sig_num: 4,
        take_offset: zero(),
        snap_to_grid: true,
        target_lufs: Real32 { bits: LUFS_FIRST_BITS },
        popover_open: false,
        exit_bars: 2,
        region_fade_shape: Real32 { bits: HALF_BITS },
        region_fade_pct: one(),
        region_group: 0,
        selection: None,
        current_section: SectionKind::Main,
        start_pulses: 0,
        start_bpm: zero(),
        start_time_sig: 4,
    }
}

/// The state of the hub.
#[derive(Debug)]
pub struct Hub {
    pub controls: Controls,
    pub session_name: String,
    /// The names given to the sources.
    pub layer_names: Vec<String>,
    pub status: Option<String>,
    pub adaptive: AdaptiveMixer,
    pub meta: AssetMeta,
    pub takes: SectionTakes,
    pub transport: Playback,
    /// The recorder, while sound comes in.
    pub recorder: Option<RecorderControl>,
}

/// The contents of a [`Hub`].
#[verifier::ext_equal]
pub struct HubView {
    pub controls: Controls,
    pub session_name: Seq<char>,
    pub layer_names: Seq<Seq<char>>,
    pub status: Option<Seq<char>>,
    pub adaptive: MixerView,
    pub meta: AssetMetaView,
    pub takes: TakesView,
    pub transport: Playback,
    pub recorder: Option<ControlView>,
}

/// The contents of texts.
pub open spec fn names_of(s: Seq<String>) -> Seq<Seq<char>> {
    s.map_values(|t: String| t@)
}

impl View for Hub {
    type V = HubView;

    open spec fn view(&self) -> HubView {
        HubView {
            controls: self.controls,
            session_name: self.session_name@,
            layer_names: names_of(self.layer_names@),
            status: match self.status {
                Some(s) => Some(s@),
                None => None,
            },
            adaptive: self.adaptive@,
            meta: self.meta@,
            takes: self.takes@,
            transport: self.transport,
            recorder: match self.recorder {
                Some(r) => Some(r@),
                None => None,
            },
        }
    }
}

/// A hub at first.
pub open spec fn first_hub() -> HubView {
    HubView {
        controls: first_controls(),
        session_name: Seq::empty(),
        layer_names: Seq::empty(),
        status: None,
        adaptive: new_mixer(),
        meta: blank_meta(),
        takes: no_takes(),
        transport: Playback { playing: false, position: 0, len_frames: 0, loaded: false },
        recorder: None,
    }
}

/// Something happened to a control of the hub.
#[derive(Debug)]
pub enum HubEvent {
    SetArm(usize, bool),
    PlaybackPlay,
    PlaybackPause,
    PlaybackStop,
    /// Zoom in to this value, at most the largest.
    ZoomIn(Real32),
    /// Zoom out to this value, at least the smallest.
    ZoomOut(Real32),
    ZoomReset,
    /// Step the beats per bar.
    TimeSigNumChanged(i32),
    /// Seek to this frame.
    SetPlayhead(u64),
    SetTakeOffset(Real32),
    /// The take was let go, nearest to this offset on the grid.
    CommitTakeOffset(Real32),
    ToggleSnap(bool),
    SetTargetLufs(Real32),
    SetSessionName(String),
    SetLayerName(usize, String),
    Mixer(MixerEvent),
    ToggleTargetCurvePopover,
    SelectSection(SectionKind),
    AddSection(SectionKind),
    /// The sequence of sections started to play.
    SequenceStarted,
    /// There is nothing that could play.
    SequenceUnavailable,
    SetExitBars(u32),
    SetRegionFadeShape(Real32),
    SetRegionFadePct(Real32),
    /// Step the group of new regions.
    SetRegionGroup(i32),
    /// Add a region of this length at the playhead.
    AddInRegionAtPlayhead(u64),
    AddOutRegionAtPlayhead(u64),
    /// Make exits on the grid over a section of this length.
    GenerateExitRegions(Option<BarGrid>, u64),
    GenerateExitRegionsInRange(Option<BarGrid>, u64),
    SetLoopBeginAtPlayhead,
    SetLoopEndAtPlayhead,
    ClearLoop,
    /// Select a range of frames.
    SetSelection(u64, u64),
    ClearSelection,
    ClearRegions,
}

/// What the caller is to do after an event.
#[derive(Debug, Clone, Copy, PartialEq, Eq, Structural)]
pub enum HubAction {
    Nothing,
    /// Load the take of this section.
    LoadSection(SectionKind),
    /// Work out the gains for the loudness that is aimed at.
    RefreshGains,
}

/// A 32-bit number read with its sign bit as such.
pub open spec fn signed(n: u32) -> int {
    if n > 0x7fff_ffff {
        n - 0x1_0000_0000
    } else {
        n as int
    }
}

/// Whether a number and a step add up to one of 32 bits.
fn sum_fits(n: u32, d: i32) -> (r: bool)
    ensures
        r == (i32::MIN <= signed(n) + d <= i32::MAX),
{
    let at: i64 = if n > 0x7fff_ffff {
        n as i64 - 0x1_0000_0000
    } else {
        n as i64
    };
    let sum: i64 = at + d as i64;
    i32::MIN as i64 <= sum && sum <= i32::MAX as i64
}

/// The number held in bounds.
pub open spec fn held(n: int, lo: int, hi: int) -> int {
    if n < lo {
        lo
    } else if n > hi {
        hi
    } else {
        n
    }
}

/// The names, cut or filled up with empty ones to `n`.
pub open spec fn resized(names: Seq<Seq<char>>, n: nat) -> Seq<Seq<char>> {
    Seq::new(
        n,
        |i: int|
            if i < names.len() {
                names[i]
            } else {
                Seq::empty()
            },
    )
}

/// The names with name `i` set, filled up with empty ones where there were too
/// few.
pub open spec fn with_name(names: Seq<Seq<char>>, i: int, name: Seq<char>) -> Seq<Seq<char>> {
    if i < names.len() {
        names.update(i, name)
    } else {
        resized(names, (i + 1) as nat).update(i, name)
    }
}

impl HubView {
    pub open spec fn with_controls(self, controls: Controls) -> HubView {
        HubView { controls, ..self }
    }

    /// The take of the current section.
    pub open spec fn current(self) -> Option<SectionTakeView> {
        self.takes.get(self.controls.current_section)
    }

    /// With the take of the current section changed, where it has one.
    pub open spec fn with_current(self, t: Option<SectionTakeView>) -> HubView {
        match t {
            Some(t) => HubView {
                takes: self.takes.with(self.controls.current_section, t),
                ..self
            },
            None => self,
        }
    }

    /// With the drag of the loaded take kept in the take of its section.
    pub open spec fn stashed(self) -> HubView {
        self.with_current(
            match self.current() {
                Some(t) => Some(
                    SectionTakeView { user_offset_units: self.controls.take_offset, ..t },
                ),
                None => None,
            },
        )
    }
}

/// The event leads to no number that does not fit.
pub open spec fn event_fits(h: HubView, e: HubEvent) -> bool {
    match e {
        HubEvent::TimeSigNumChanged(d) => i32::MIN <= signed(h.controls.time_sig_num) + d
            <= i32::MAX,
        HubEvent::SetRegionGroup(d) => i32::MIN <= signed(h.controls.region_group) + d <= i32::MAX,
        HubEvent::SetLayerName(i, _) => i < usize::MAX,
        HubEvent::Mixer(m) => step_fits(h.adaptive, m),
        HubEvent::AddOutRegionAtPlayhead(span) => h.current() is Some ==> h.transport.position
            + span <= u64::MAX,
        HubEvent::GenerateExitRegions(grid, len) => exits_fit(grid, 0, len),
        HubEvent::GenerateExitRegionsInRange(grid, _) => h.controls.selection matches Some((a, b))
            ==> exits_fit(grid, a, b),
        HubEvent::SetLoopBeginAtPlayhead => h.current() is Some ==> h.transport.position
            < u64::MAX,
        _ => true,
    }
}

/// The hub after an event.
pub open spec fn hub_after(h: HubView, e: HubEvent) -> HubView {
    let c = h.controls;
    match e {
        HubEvent::SetArm(i, on) => match h.recorder {
            Some(r) => if r.recording || i >= r.state.armed.len() {
                h
            } else {
                HubView {
                    recorder: Some(
                        ControlView {
                            state: RecordView {
                                armed: r.state.armed.update(i as int, on),
                                ..r.state
                            },
                            ..r
                        },
                    ),
                    ..h
                }
            },
            None => h,
        },
        HubEvent::PlaybackPlay => HubView { transport: h.transport.played(), ..h },
        HubEvent::PlaybackPause => HubView {
            transport: Playback { playing: false, ..h.transport },
            ..h
        },
        HubEvent::PlaybackStop => HubView {
            transport: Playback { playing: false, position: 0, ..h.transport },
            ..h
        },
        HubEvent::ZoomIn(v) => h.with_controls(
            Controls { zoom: v.smaller(Real32 { bits: ZOOM_MAX_BITS }), ..c },
        ),
        HubEvent::ZoomOut(v) => h.with_controls(
            Controls { zoom: v.larger(Real32 { bits: ZOOM_MIN_BITS }), ..c },
        ),
        HubEvent::ZoomReset => h.with_controls(Controls { zoom: one(), ..c }),
        HubEvent::TimeSigNumChanged(d) => h.with_controls(
            Controls { time_sig_num: held(signed(c.time_sig_num) + d, 1, 32) as u32, ..c },
        ),
        HubEvent::SetPlayhead(frame) => if h.transport.loaded {
            HubView {
                transport: Playback {
                    position: if frame < h.transport.len_frames {
                        frame
                    } else {
                        h.transport.len_frames
                    },
                    ..h.transport
                },
                ..h
            }
        } else {
            h
        },
        HubEvent::SetTakeOffset(v) => h.with_controls(Controls { take_offset: v, ..c }),
        HubEvent::CommitTakeOffset(v) => if c.snap_to_grid {
            h.with_controls(Controls { take_offset: v, ..c })
        } else {
            h
        },
        HubEvent::ToggleSnap(on) => h.with_controls(Controls { snap_to_grid: on, ..c }),
        HubEvent::SetTargetLufs(v) => h.with_controls(
            Controls { target_lufs: v.clamped(Real32 { bits: LUFS_MIN_BITS }, zero()), ..c },
        ),
        HubEvent::SetSessionName(name) => HubView { session_name: name@, ..h },
        HubEvent::SetLayerName(i, name) => HubView {
            layer_names: with_name(h.layer_names, i as int, name@),
            ..h
        },
        HubEvent::Mixer(m) => HubView { adaptive: mixer_after(h.adaptive, m), ..h },
        HubEvent::ToggleTargetCurvePopover => h.with_controls(
            Controls { popover_open: !c.popover_open, ..c },
        ),
        HubEvent::SelectSection(kind) => if kind == c.current_section {
            h
        } else {
            h.stashed().with_controls(Controls { current_section: kind, ..c })
        },
        HubEvent::AddSection(kind) => h.with_controls(Controls { current_section: kind, ..c }),
        HubEvent::SequenceStarted => HubView {
            transport: Playback { playing: false, ..h.transport },
            status: Some("playing adaptive sequence"@),
            ..h
        },
        HubEvent::SequenceUnavailable => HubView {
            status: Some("record at least one section first"@),
            ..h
        },
        HubEvent::SetExitBars(n) => h.with_controls(
            Controls {
                exit_bars: if n < 1 {
                    1
                } else {
                    n
                },
                ..c
            },
        ),
        HubEvent::SetRegionFadeShape(v) => h.with_controls(
            Controls { region_fade_shape: v.clamped(zero(), one()), ..c },
        ),
        HubEvent::SetRegionFadePct(v) => h.with_controls(
            Controls { region_fade_pct: v.clamped(zero(), two()), ..c },
        ),
        HubEvent::SetRegionGroup(d) => h.with_controls(
            Controls { region_group: held(signed(c.region_group) + d, 0, 15) as u32, ..c },
        ),
        HubEvent::AddInRegionAtPlayhead(span) => h.with_current(
            match h.current() {
                Some(t) => Some(t.with_entry(h.transport.position, span, c.style_of())),
                None => None,
            },
        ),
        HubEvent::AddOutRegionAtPlayhead(span) => h.with_current(
            match h.current() {
                Some(t) => Some(t.with_exit(h.transport.position, span, c.style_of())),
                None => None,
            },
        ),
        HubEvent::GenerateExitRegions(grid, len) => if len > 0 {
            h.with_current(
                match h.current() {
                    Some(t) => Some(
                        SectionTakeView {
                            out_regions: exits_between(grid, 0, len, len, c.style_of()),
                            ..t
                        },
                    ),
                    None => None,
                },
            )
        } else {
            h
        },
        HubEvent::GenerateExitRegionsInRange(grid, len) => match c.selection {
            Some((a, b)) => h.with_current(
                match h.current() {
                    Some(t) => Some(
                        t.with_exits_in(a, b, exits_between(grid, a, b, len, c.style_of())),
                    ),
                    None => None,
                },
            ),
            None => HubView { status: Some("drag a range on the ruler first"@), ..h },
        },
        HubEvent::SetLoopBeginAtPlayhead => h.with_current(
            match h.current() {
                Some(t) => Some(t.with_loop_begin(h.transport.position)),
                None => None,
            },
        ),
        HubEvent::SetLoopEndAtPlayhead => h.with_current(
            match h.current() {
                Some(t) => Some(t.with_loop_end(h.transport.position)),
                None => None,
            },
        ),
        HubEvent::ClearLoop => h.with_current(
            match h.current() {
                Some(t) => Some(SectionTakeView { loop_range: None, ..t }),
                None => None,
            },
        ),
        HubEvent::SetSelection(a, b) => h.with_controls(Controls { selection: Some((a, b)), ..c }),
        HubEvent::ClearSelection => h.with_controls(Controls { selection: None, ..c }),
        HubEvent::ClearRegions => h.with_current(
            match h.current() {
                Some(t) => Some(
                    SectionTakeView {
                        in_regions: Seq::empty(),
                        out_regions: Seq::empty(),
                        ..t
                    },
                ),
                None => None,
            },
        ),
    }
}

/// What is to be done after an event.
pub open spec fn action_after(h: HubView, e: HubEvent) -> HubAction {
    match e {
        HubEvent::SelectSection(kind) => if kind == h.controls.current_section {
            HubAction::Nothing
        } else {
            HubAction::LoadSection(kind)
        },
        HubEvent::AddSection(kind) => HubAction::LoadSection(kind),
        HubEvent::SetTargetLufs(_) => HubAction::RefreshGains,
        _ => HubAction::Nothing,
    }
}

fn step_held(n: u32, d: i32, lo: i32, hi: i32) -> (r: u32)
    requires
        i32::MIN <= signed(n) + d <= i32::MAX,
        0 <= lo <= hi,
    ensures
        r == held(signed(n) + d, lo as int, hi as int),
{
    let s: i64 = if n > 0x7fff_ffff {
        n as i64 - 0x1_0000_0000
    } else {
        n as i64
    };
    let m: i64 = s + d as i64;
    if m < lo as i64 {
        lo as u32
    } else if m > hi as i64 {
        hi as u32
    } else {
        m as u32
    }
}

fn resize_names(names: &mut Vec<String>, n: usize)
    ensures
        names_of(final(names)@) == resized(names_of(old(names)@), n as nat),
{
    let ghost before = names_of(names@);
    if names.len() > n {
        names.truncate(n);
    }
    while names.len() < n
        invariant
            names@.len() <= n,
            names@.len() >= before.len() || names@.len() == n,
            names_of(names@) =~= resized(before, names@.len()),
        decreases n - names@.len(),
    {
        let ghost o = names@;
        names.push(String::new());
        assert(names_of(names@) =~= names_of(o).push(Seq::empty()));
    }
    assert(names_of(names@) =~= resized(before, n as nat));
}

impl Hub {
    pub fn new() -> (r: Self)
        ensures
            r@ == first_hub(),
    {
        let r = Hub {
            controls: Controls {
                num_sources: 0,
                zoom: Real32 { bits: ONE_BITS },
                time_sig_num: 4,
                take_offset: Real32 { bits: ZERO_BITS },
                snap_to_grid: true,
                target_lufs: Real32 { bits: LUFS_FIRST_BITS },
                popover_open: false,
                exit_bars: 2,
                region_fade_shape: Real32 { bits: HALF_BITS },
                region_fade_pct: Real32 { bits: ONE_BITS },
                region_group: 0,
                selection: None,
                current_section: SectionKind::Main,
                start_pulses: 0,
                start_bpm: Real32 { bits: ZERO_BITS },
                start_time_sig: 4,
            },
            session_name: String::new(),
            layer_names: Vec::new(),
            status: None,
            adaptive: AdaptiveMixer::new(),
            meta: AssetMeta::default(),
            takes: SectionTakes::new(),
            transport: Playback::new(),
            recorder: None,
        };
        assert(r@ =~= first_hub());
        r
    }

    fn set_layer_name(&mut self, i: usize, name: String)
        requires
            i < usize::MAX,
        ensures
            final(self)@ == (HubView {
                layer_names: with_name(old(self)@.layer_names, i as int, name@),
                ..old(self)@
            }),
    {
        let ghost before = self@;
        if i >= self.layer_names.len() {
            resize_names(&mut self.layer_names, i + 1);
        }
        let ghost mid = self.layer_names@;
        assert(names_of(mid).len() == mid.len());
        self.layer_names.set(i, name);
        assert(names_of(self.layer_names@) =~= names_of(mid).update(i as int, name@));
        assert(self@ =~= (HubView {
            layer_names: with_name(before.layer_names, i as int, name@),
            ..before
        }));
    }

    fn stash_offset(&mut self)
        ensures
            final(self)@ == old(self)@.stashed(),
    {
        let offset = self.controls.take_offset;
        if let Some(t) = self.takes.get_mut(self.controls.current_section) {
            t.user_offset_units = offset;
        }
    }

    /// Whether an event leads to no number that does not fit.
    pub fn fits(&self, e: &HubEvent) -> (r: bool)
        ensures
            r == event_fits(self@, *e),
    {
        let c = &self.controls;
        match e {
            HubEvent::TimeSigNumChanged(d) => sum_fits(c.time_sig_num, *d),
            HubEvent::SetRegionGroup(d) => sum_fits(c.region_group, *d),
            HubEvent::SetLayerName(i, _) => *i < usize::MAX,
            HubEvent::Mixer(m) => step_goes(&self.adaptive, m),
            HubEvent::AddOutRegionAtPlayhead(span) => match self.takes.get(c.current_section) {
                Some(_) => self.transport.position <= u64::MAX - *span,
                None => true,
            },
            HubEvent::GenerateExitRegions(grid, len) => exits_go(grid, 0, *len),
            HubEvent::GenerateExitRegionsInRange(grid, _) => match c.selection {
                Some((a, b)) => exits_go(grid, a, b),
                None => true,
            },
            HubEvent::SetLoopBeginAtPlayhead => match self.takes.get(c.current_section) {
                Some(_) => self.transport.position < u64::MAX,
                None => true,
            },
            _ => true,
        }
    }

    fn region_event(&mut self, e: &HubEvent)
        requires
            event_fits(old(self)@, *e),
            e is AddInRegionAtPlayhead || e is AddOutRegionAtPlayhead || e is GenerateExitRegions
                || e is GenerateExitRegionsInRange,
        ensures
            final(self)@ == hub_after(old(self)@, *e),
    {
        let ghost o = self@;
        let style = self.controls.style();
        let pos: u64 = self.transport.position;
        let kind = self.controls.current_section;
        match e {
            HubEvent::AddInRegionAtPlayhead(span) => {
                if let Some(t) = self.takes.get_mut(kind) {
                    t.add_entry(pos, *span, style);
                }
            },
            HubEvent::AddOutRegionAtPlayhead(span) => {
                if let Some(t) = self.takes.get_mut(kind) {
                    t.add_exit(pos, *span, style);
                }
            },
            HubEvent::GenerateExitRegions(grid, len) => {
                if *len > 0 {
                    let exits = generate_out_regions(*grid, 0, *len, *len, style);
                    if let Some(t) = self.takes.get_mut(kind) {
                        t.out_regions = exits;
                    }
                }
            },
            HubEvent::GenerateExitRegionsInRange(grid, len) => {
                match self.controls.selection {
                    Some((a, b)) => {
                        let exits = generate_out_regions(*grid, a, b, *len, style);
                        if let Some(t) = self.takes.get_mut(kind) {
                            t.replace_exits(a, b, exits);
                        }
                    },
                    None => {
                        self.status = Some("drag a range on the ruler first".to_owned());
                    },
                }
            },
            _ => {},
        }
        assert(self@ =~= hub_after(o, *e));
    }

    fn loop_event(&mut self, e: &HubEvent)
        requires
            event_fits(old(self)@, *e),
            e is SetLoopBeginAtPlayhead || e is SetLoopEndAtPlayhead || e is ClearLoop
                || e is ClearRegions,
        ensures
            final(self)@ == hub_after(old(self)@, *e),
    {
        let ghost o = self@;
        let pos: u64 = self.transport.position;
        let kind = self.controls.current_section;
        match e {
            HubEvent::SetLoopBeginAtPlayhead => {
                if let Some(t) = self.takes.get_mut(kind) {
                    t.set_loop_begin(pos);
                }
            },
            HubEvent::SetLoopEndAtPlayhead => {
                if let Some(t) = self.takes.get_mut(kind) {
                    t.set_loop_end(pos);
                }
            },
            HubEvent::ClearLoop => {
                if let Some(t) = self.takes.get_mut(kind) {
                    t.loop_range = None;
                }
            },
            HubEvent::ClearRegions => {
                let none: Vec<Region> = Vec::new();
                let no: Vec<Region> = Vec::new();
                assert(none@ =~= Seq::empty());
                assert(no@ =~= Seq::empty());
                if let Some(t) = self.takes.get_mut(kind) {
                    t.in_regions = none;
                    t.out_regions = no;
                }
            },
            _ => {},
        }
        assert(self@ =~= hub_after(o, *e));
    }

    fn transport_event(&mut self, e: &HubEvent)
        requires
            e is PlaybackPlay || e is PlaybackPause || e is PlaybackStop || e is SetPlayhead
                || e is SequenceStarted || e is SequenceUnavailable,
        ensures
            final(self)@ == hub_after(old(self)@, *e),
    {
        let ghost o = self@;
        match e {
            HubEvent::PlaybackPlay => {
                self.transport.play();
            },
            HubEvent::PlaybackPause => {
                self.transport.pause();
            },
            HubEvent::PlaybackStop => {
                self.transport.stop();
            },
            HubEvent::SetPlayhead(frame) => {
                if self.transport.loaded {
                    let frame: u64 = *frame;
                    let len: u64 = self.transport.len_frames;
                    self.transport.set_position(
                        if frame < len {
                            frame
                        } else {
                            len
                        },
                    );
                }
            },
            HubEvent::SequenceStarted => {
                self.transport.pause();
                self.status = Some("playing adaptive sequence".to_owned());
            },
            HubEvent::SequenceUnavailable => {
                self.status = Some("record at least one section first".to_owned());
            },
            _ => {},
        }
        assert(self@ =~= hub_after(o, *e));
    }

    /// Take an event. Tells what the caller is to do.
    pub fn update(&mut self, e: HubEvent) -> (r: HubAction)
        requires
            event_fits(old(self)@, e),
        ensures
            final(self)@ == hub_after(old(self)@, e),
            r == action_after(old(self)@, e),
    {
        let ghost o = self@;
        let zero = Real32 { bits: ZERO_BITS };
        let one = Real32 { bits: ONE_BITS };
        match e {
            HubEvent::SetArm(i, on) => {
                if let Some(r) = &mut self.recorder {
                    if !r.recording {
                        r.state.set_armed(i, on);
                    }
                }
            },
            HubEvent::ZoomIn(v) => {
                self.controls.zoom = v.min(Real32 { bits: ZOOM_MAX_BITS });
            },
            HubEvent::ZoomOut(v) => {
                self.controls.zoom = v.max(Real32 { bits: ZOOM_MIN_BITS });
            },
            HubEvent::ZoomReset => {
                self.controls.zoom = one;
            },
            HubEvent::TimeSigNumChanged(d) => {
                self.controls.time_sig_num = step_held(self.controls.time_sig_num, d, 1, 32);
            },
            HubEvent::SetTakeOffset(v) => {
                self.controls.take_offset = v;
            },
            HubEvent::CommitTakeOffset(v) => {
                if self.controls.snap_to_grid {
                    self.controls.take_offset = v;
                }
            },
            HubEvent::ToggleSnap(on) => {
                self.controls.snap_to_grid = on;
            },
            HubEvent::SetTargetLufs(v) => {
                self.controls.target_lufs = v.clamp(Real32 { bits: LUFS_MIN_BITS }, zero);
                assert(self@ =~= hub_after(o, e));
                return HubAction::RefreshGains;
            },
            HubEvent::SetSessionName(name) => {
                self.session_name = name;
            },
            HubEvent::SetLayerName(i, name) => {
                self.set_layer_name(i, name);
            },
            HubEvent::Mixer(m) => {
                self.adaptive.apply(m);
            },
            HubEvent::ToggleTargetCurvePopover => {
                self.controls.popover_open = !self.controls.popover_open;
            },
            HubEvent::SelectSection(kind) => {
                if kind != self.controls.current_section {
                    self.stash_offset();
                    self.controls.current_section = kind;
                    assert(self@ =~= hub_after(o, e));
                    return HubAction::LoadSection(kind);
                }
            },
            HubEvent::AddSection(kind) => {
                self.controls.current_section = kind;
                assert(self@ =~= hub_after(o, e));
                return HubAction::LoadSection(kind);
            },
            HubEvent::SetExitBars(n) => {
                self.controls.exit_bars = if n < 1 {
                    1
                } else {
                    n
                };
            },
            HubEvent::SetRegionFadeShape(v) => {
                self.controls.region_fade_shape = v.clamp(zero, one);
            },
            HubEvent::SetRegionFadePct(v) => {
                self.controls.region_fade_pct = v.clamp(zero, Real32 { bits: TWO_BITS });
            },
            HubEvent::SetRegionGroup(d) => {
                self.controls.region_group = step_held(self.controls.region_group, d, 0, 15);
            },
            HubEvent::SetSelection(a, b) => {
                self.controls.selection = Some((a, b));
            },
            HubEvent::ClearSelection => {
                self.controls.selection = None;
            },
            HubEvent::AddInRegionAtPlayhead(_) => {
                self.region_event(&e);
            },
            HubEvent::AddOutRegionAtPlayhead(_) => {
                self.region_event(&e);
            },
            HubEvent::GenerateExitRegions(_, _) => {
                self.region_event(&e);
            },
            HubEvent::GenerateExitRegionsInRange(_, _) => {
                self.region_event(&e);
            },
            HubEvent::SetLoopBeginAtPlayhead => {
                self.loop_event(&e);
            },
            HubEvent::SetLoopEndAtPlayhead => {
                self.loop_event(&e);
            },
            HubEvent::ClearLoop => {
                self.loop_event(&e);
            },
            HubEvent::ClearRegions => {
                self.loop_event(&e);
            },
            _ => {
                self.transport_event(&e);
            },
        }
        assert(self@ =~= hub_after(o, e));
        HubAction::Nothing
    }
}

// What happens around the controls: the engine, recording, sections, sessions
// and bundles.

/// How the take of a section is to be loaded.
#[derive(Debug, Clone, Copy, PartialEq, Eq, Structural)]
pub enum LoadPlan {
    /// It has none: clear what is shown and played.
    Clear,
    /// It is at hand.
    Cached,
    /// It is to be read from its folder.
    Read,
}

/// Whether the stems can be exported, and what is said where they can not.
#[derive(Debug, Clone, Copy, PartialEq, Eq, Structural)]
pub enum ExportCheck {
    NoTake,
    NoRecorder,
    NoSession,
    Ready,
}

impl ExportCheck {
    /// What is said.
    pub fn message(self) -> (r: Option<&'static str>)
        ensures
            match self {
                ExportCheck::NoTake => r matches Some(s) && s@ == "no take loaded"@,
                ExportCheck::NoSession => r matches Some(s) && s@ == "no recorded session yet"@,
                _ => r is None,
            },
    {
        match self {
            ExportCheck::NoTake => Some("no take loaded"),
            ExportCheck::NoSession => Some("no recorded session yet"),
            _ => None,
        }
    }
}

/// The hub after sound has come in from a device with `num_sources` sources,
/// `armable` of which can be armed.
pub open spec fn engine_on(h: HubView, num_sources: usize, armable: usize) -> HubView {
    HubView {
        controls: Controls { num_sources, ..h.controls },
        layer_names: resized(h.layer_names, num_sources as nat),
        recorder: Some(
            ControlView {
                state: RecordView {
                    active: false,
                    armed: Seq::new(armable as nat, |i: int| false),
                },
                recording: false,
                last_session: None,
                last_session_name: None,
                last_armed: Seq::empty(),
                error: None,
            },
        ),
        ..h
    }
}

/// The hub after no sound has come in from a device with `num_sources` sources.
pub open spec fn engine_off(h: HubView, num_sources: usize) -> HubView {
    HubView { controls: Controls { num_sources, ..h.controls }, recorder: None, ..h }
}

/// The hub without a take that is shown and played.
pub open spec fn section_off(h: HubView) -> HubView {
    HubView {
        controls: Controls { take_offset: zero(), ..h.controls },
        transport: Playback { playing: false, position: 0, len_frames: 0, loaded: false },
        ..h
    }
}

/// How the take of a section is to be loaded.
pub open spec fn plan_for(h: HubView, kind: SectionKind, cached: bool) -> LoadPlan {
    if h.takes.get(kind) is None {
        LoadPlan::Clear
    } else if cached {
        LoadPlan::Cached
    } else {
        LoadPlan::Read
    }
}

/// Whether the stems can be exported.
pub open spec fn export_of(h: HubView) -> ExportCheck {
    if !h.transport.loaded {
        ExportCheck::NoTake
    } else {
        match h.recorder {
            None => ExportCheck::NoRecorder,
            Some(c) => if c.last_session is None {
                ExportCheck::NoSession
            } else {
                ExportCheck::Ready
            },
        }
    }
}

/// The hub with a session name for a bundle with the code `code`.
pub open spec fn named_for_import(h: HubView, code: Seq<char>) -> HubView {
    HubView {
        session_name: if blank(h.session_name) {
            code
        } else {
            h.session_name
        },
        ..h
    }
}

/// The hub while a bundle is brought in to the session in `root`.
pub open spec fn import_on(h: HubView, root: Seq<char>) -> HubView {
    HubView {
        recorder: pointed(h.recorder, root, h.session_name, None),
        takes: no_takes(),
        ..h
    }
}

/// The hub after a bundle in `dir` was brought in.
pub open spec fn import_off(h: HubView, dir: Seq<char>) -> HubView {
    HubView {
        controls: Controls { current_section: h.takes.preferred(), ..h.controls },
        status: Some(imported_line(h.takes.count() as nat, dir)),
        ..h
    }
}

/// The hub after a recording has started.
pub open spec fn recording_on(h: HubView, name: Seq<char>, pulses: u64, bpm: Real32) -> HubView {
    HubView {
        session_name: if blank(h.session_name) {
            name
        } else {
            h.session_name
        },
        controls: Controls {
            start_pulses: pulses,
            start_bpm: bpm,
            start_time_sig: h.controls.time_sig_num,
            take_offset: zero(),
            ..h.controls
        },
        transport: Playback { playing: false, ..h.transport },
        ..h
    }
}

/// The take that was just recorded: the regions and the loop window of the one
/// before it are kept.
pub open spec fn new_take(h: HubView, armed: Seq<usize>) -> SectionTakeView {
    SectionTakeView {
        armed,
        start_pulses: h.controls.start_pulses,
        bpm: h.controls.start_bpm,
        time_sig: h.controls.start_time_sig,
        user_offset_units: zero(),
        in_regions: match h.current() {
            Some(t) => t.in_regions,
            None => Seq::empty(),
        },
        out_regions: match h.current() {
            Some(t) => t.out_regions,
            None => Seq::empty(),
        },
        loop_range: match h.current() {
            Some(t) => t.loop_range,
            None => None,
        },
    }
}

/// The sources of the current or last recording.
pub open spec fn last_armed(h: HubView) -> Seq<usize> {
    match h.recorder {
        Some(r) => r.last_armed,
        None => Seq::empty(),
    }
}

/// The hub after the take of a section was loaded.
pub open spec fn section_on(h: HubView, t: SectionTakeView, len: u64) -> HubView {
    HubView {
        controls: Controls {
            start_pulses: t.start_pulses,
            start_bpm: t.bpm,
            start_time_sig: t.time_sig,
            take_offset: t.user_offset_units,
            ..h.controls
        },
        transport: Playback { playing: false, position: 0, len_frames: len, loaded: true },
        ..h
    }
}

/// The recorder pointed at a session.
pub open spec fn pointed(
    r: Option<ControlView>,
    root: Seq<char>,
    name: Seq<char>,
    armed: Option<Seq<usize>>,
) -> Option<ControlView> {
    match r {
        Some(c) => Some(
            ControlView {
                last_session: Some(root),
                last_session_name: Some(name),
                last_armed: match armed {
                    Some(a) => a,
                    None => c.last_armed,
                },
                ..c
            },
        ),
        None => None,
    }
}

/// The hub after a session was loaded from `root`.
pub open spec fn session_on(h: HubView, s: SessionView, root: Seq<char>) -> HubView {
    let takes = with_all(no_takes(), picked(s.project.first_sections(), section_take()));
    HubView {
        session_name: s.session_name,
        controls: Controls {
            target_lufs: s.target_lufs,
            zoom: s.zoom.clamped(Real32 { bits: ZOOM_MIN_BITS }, Real32 { bits: ZOOM_MAX_BITS }),
            snap_to_grid: s.snap_to_grid,
            time_sig_num: if s.time_sig_num < 1 {
                1
            } else {
                s.time_sig_num
            },
            current_section: takes.preferred(),
            ..h.controls
        },
        layer_names: resized(s.layer_names, h.controls.num_sources as nat),
        takes,
        recorder: pointed(
            h.recorder,
            root,
            s.session_name,
            match takes.main {
                Some(t) => Some(t.armed),
                None => None,
            },
        ),
        status: Some(loaded_line(takes.count() as nat, root)),
        ..h
    }
}

impl Hub {
    /// Sound comes in from a device with `num_sources` sources, `armable` of
    /// which can be armed.
    pub fn engine_started(&mut self, num_sources: usize, armable: usize)
        ensures
            final(self)@ == engine_on(old(self)@, num_sources, armable),
    {
        let ghost o = self@;
        self.controls.num_sources = num_sources;
        resize_names(&mut self.layer_names, num_sources);
        self.recorder = Some(RecorderControl::new(RecordState::new(armable)));
        assert(self@ =~= engine_on(o, num_sources, armable));
    }

    /// No sound comes in.
    pub fn engine_failed(&mut self, num_sources: usize)
        ensures
            final(self)@ == engine_off(old(self)@, num_sources),
    {
        self.controls.num_sources = num_sources;
        self.recorder = None;
    }

    /// A recording of the session `name` has started, with the grid at this
    /// position and tempo.
    pub fn record_started(&mut self, name: &str, pulses: u64, bpm: Real32)
        ensures
            final(self)@ == recording_on(old(self)@, name@, pulses, bpm),
    {
        if is_blank(self.session_name.as_str()) {
            self.session_name = name.to_owned();
        }
        self.controls.start_pulses = pulses;
        self.controls.start_bpm = bpm;
        self.controls.start_time_sig = self.controls.time_sig_num;
        self.controls.take_offset = Real32 { bits: ZERO_BITS };
        self.transport.pause();
    }

    /// The take of the last recording is there: it becomes that of the current
    /// section, which is then to be loaded.
    pub fn take_recorded(&mut self) -> (r: HubAction)
        ensures
            ({
                let o = old(self)@;
                let armed = last_armed(o);
                if armed.len() == 0 {
                    final(self)@ == o && r == HubAction::Nothing
                } else {
                    final(self)@ == o.with_current(Some(new_take(o, armed))) && r
                        == HubAction::LoadSection(o.controls.current_section)
                }
            }),
    {
        let ghost o = self@;
        let armed = match &self.recorder {
            Some(r) => copy_sources(&r.last_armed),
            None => Vec::new(),
        };
        assert(armed@ =~= last_armed(o));
        if armed.len() == 0 {
            return HubAction::Nothing;
        }
        let kind = self.controls.current_section;
        let (in_regions, out_regions, loop_range) = match self.takes.get(kind) {
            Some(t) => (copy_regions(&t.in_regions), copy_regions(&t.out_regions), t.loop_range),
            None => (Vec::new(), Vec::new(), None),
        };
        let take = SectionTake {
            armed,
            start_pulses: self.controls.start_pulses,
            bpm: self.controls.start_bpm,
            time_sig: self.controls.start_time_sig,
            user_offset_units: Real32 { bits: ZERO_BITS },
            in_regions,
            out_regions,
            loop_range,
        };
        assert(take@ =~= new_take(o, last_armed(o)));
        self.takes.insert(kind, take);
        HubAction::LoadSection(kind)
    }

    /// How the take of a section is to be loaded.
    pub fn load_plan(&self, kind: SectionKind, cached: bool) -> (r: LoadPlan)
        ensures
            r == plan_for(self@, kind, cached),
    {
        match self.takes.get(kind) {
            None => LoadPlan::Clear,
            Some(_) => if cached {
                LoadPlan::Cached
            } else {
                LoadPlan::Read
            },
        }
    }

    /// There is no take to show and play.
    pub fn section_cleared(&mut self)
        ensures
            final(self)@ == section_off(old(self)@),
    {
        self.controls.take_offset = Real32 { bits: ZERO_BITS };
        self.transport.clear();
    }

    /// The take of a section was loaded and has `len` frames.
    pub fn section_loaded(&mut self, kind: SectionKind, len: u64)
        ensures
            final(self)@ == match old(self)@.takes.get(kind) {
                Some(t) => section_on(old(self)@, t, len),
                None => old(self)@,
            },
    {
        match self.takes.get(kind) {
            Some(t) => {
                self.controls.start_pulses = t.start_pulses;
                self.controls.start_bpm = t.bpm;
                self.controls.start_time_sig = t.time_sig;
                self.controls.take_offset = t.user_offset_units;
                self.transport.set_take(len);
            },
            None => {},
        }
    }

    /// Whether the stems can be exported.
    pub fn export_check(&self) -> (r: ExportCheck)
        ensures
            r == export_of(self@),
    {
        if !self.transport.loaded {
            return ExportCheck::NoTake;
        }
        match &self.recorder {
            None => ExportCheck::NoRecorder,
            Some(c) => match &c.last_session {
                None => ExportCheck::NoSession,
                Some(_) => ExportCheck::Ready,
            },
        }
    }

    /// Whether the session has a name to be saved under; says so where it has
    /// none.
    pub fn can_save(&mut self) -> (r: bool)
        ensures
            r == !blank(old(self)@.session_name),
            final(self)@ == if r {
                old(self)@
            } else {
                HubView { status: Some("type a session name first"@), ..old(self)@ }
            },
    {
        if is_blank(self.session_name.as_str()) {
            self.status = Some("type a session name first".to_owned());
            return false;
        }
        true
    }

    /// What a session keeps of the hub. The drag of the loaded take goes into
    /// the take of its section first.
    pub fn session_state(&mut self, sample_rate: u32) -> (r: SessionState)
        ensures
            final(self)@ == old(self)@.stashed(),
            r@ == (SessionView {
                session_name: old(self)@.session_name,
                sample_rate,
                time_sig_num: old(self)@.controls.time_sig_num,
                target_lufs: old(self)@.controls.target_lufs,
                zoom: old(self)@.controls.zoom,
                snap_to_grid: old(self)@.controls.snap_to_grid,
                layer_names: old(self)@.layer_names,
                project: r@.project,
                take: None,
                asset_meta: None,
            }),
            take_sections(r@.project.first_sections(), old(self)@.stashed().takes.kept()),
            fresh_but_sections(r@.project, r@.project.first_sections()),
    {
        self.stash_offset();
        let names = self.layer_names.clone();
        assert(names_of(names@) =~= names_of(self.layer_names@));
        SessionState::with_section_takes(
            self.session_name.clone(),
            sample_rate,
            self.controls.time_sig_num,
            self.controls.target_lufs,
            self.controls.zoom,
            self.controls.snap_to_grid,
            names,
            self.takes.states(),
        )
    }

    /// Take over a session that was loaded from `root`. The section that is
    /// then shown is to be loaded.
    pub fn apply_session(&mut self, s: SessionState, root: &str) -> (r: HubAction)
        ensures
            final(self)@ == session_on(old(self)@, s@, root@),
            r == HubAction::LoadSection(final(self)@.controls.current_section),
    {
        let ghost o = self@;
        let takes = SectionTakes::from_states(s.section_takes());
        let ghost t = with_all(no_takes(), picked(s@.project.first_sections(), section_take()));
        assert(takes@ == t);
        self.controls.target_lufs = s.target_lufs;
        self.controls.zoom = s.zoom.clamp(
            Real32 { bits: ZOOM_MIN_BITS },
            Real32 { bits: ZOOM_MAX_BITS },
        );
        self.controls.snap_to_grid = s.snap_to_grid;
        self.controls.time_sig_num = if s.time_sig_num < 1 {
            1
        } else {
            s.time_sig_num
        };
        let mut names = s.layer_names;
        resize_names(&mut names, self.controls.num_sources);
        self.layer_names = names;
        let focus = takes.preferred();
        self.controls.current_section = focus;
        self.status = Some(loaded_status(takes.count(), root));
        self.session_name = s.session_name.clone();
        let armed = match takes.get(SectionKind::Main) {
            Some(t) => Some(copy_sources(&t.armed)),
            None => None,
        };
        self.point_recorder(root, s.session_name, armed);
        self.takes = takes;
        assert(self@ =~= session_on(o, s@, root@));
        HubAction::LoadSection(focus)
    }

    /// Point the recorder at a session.
    fn point_recorder(&mut self, root: &str, name: String, armed: Option<Vec<usize>>)
        ensures
            final(self)@ == (HubView {
                recorder: pointed(
                    old(self)@.recorder,
                    root@,
                    name@,
                    match armed {
                        Some(a) => Some(a@),
                        None => None,
                    },
                ),
                ..old(self)@
            }),
    {
        if let Some(c) = &mut self.recorder {
            c.last_session = Some(root.to_owned());
            c.last_session_name = Some(name);
            match armed {
                Some(a) => {
                    c.last_armed = a;
                },
                None => {},
            }
        }
    }

    /// The name of the session of a bundle with the code `code` that is being
    /// brought in: the bundle's where the session has none.
    pub fn name_for_import(&mut self, code: &str)
        ensures
            final(self)@ == named_for_import(old(self)@, code@),
    {
        if is_blank(self.session_name.as_str()) {
            self.session_name = code.to_owned();
        }
    }

    /// A bundle is being brought in to the session in `root`: forget the takes
    /// of the one before.
    pub fn import_begun(&mut self, root: &str)
        ensures
            final(self)@ == import_on(old(self)@, root@),
    {
        let name = self.session_name.clone();
        self.point_recorder(root, name, None);
        self.takes = SectionTakes::new();
    }

    /// A section of a bundle was brought in: `written` tells its layers that
    /// were, each with the source that it was written as.
    pub fn section_imported(&mut self, section: &ParsedSection, written: &Vec<(usize, usize)>)
        ensures
            exists|armed: Seq<usize>|
                #[trigger] is_sorted_of(armed, sources_written(written@)) && final(self)@ == (
                HubView {
                    takes: old(self)@.takes.with(
                        section@.kind,
                        brought_in(section@, armed, old(self)@.controls.time_sig_num),
                    ),
                    ..old(self)@
                }),
    {
        let take = imported_take(section, written, self.controls.time_sig_num);
        let ghost armed = take@.armed;
        self.takes.insert(section.kind, take);
        assert(is_sorted_of(armed, sources_written(written@)));
    }

    /// All sections of a bundle in `dir` were brought in. Main, or else the
    /// first section that has a take, is then to be loaded.
    pub fn import_done(&mut self, dir: &str) -> (r: HubAction)
        ensures
            final(self)@ == import_off(old(self)@, dir@),
            r == HubAction::LoadSection(old(self)@.takes.preferred()),
    {
        let focus = self.takes.preferred();
        self.controls.current_section = focus;
        self.status = Some(imported_status(self.takes.count(), dir));
        HubAction::LoadSection(focus)
    }
}

// Laws.

/// The settings are in their bounds.
pub open spec fn controls_in_bounds(c: Controls) -> bool {
    &&& 1 <= c.time_sig_num
    &&& 1 <= c.exit_bars
    &&& c.region_group <= 15
}

/// Every event keeps the settings in their bounds.
pub proof fn events_keep_bounds(h: HubView, e: HubEvent)
    requires
        event_fits(h, e),
        controls_in_bounds(h.controls),
    ensures
        controls_in_bounds(hub_after(h, e).controls),
{
}

/// No event but the record button's own changes whether recording is on, and
/// while it is on none changes which sources are armed.
pub proof fn events_leave_the_recording(h: HubView, e: HubEvent)
    requires
        event_fits(h, e),
        h.recorder is Some,
    ensures
        hub_after(h, e).recorder matches Some(r) && r.recording == h.recorder->0.recording
            && r.state.active == h.recorder->0.state.active && (h.recorder->0.recording
            ==> r.state.armed == h.recorder->0.state.armed),
{
}

/// Region and loop controls change the take of the current section only, and
/// of it only the regions and the loop window.
pub proof fn region_controls_touch_only_regions(h: HubView, e: HubEvent, kind: SectionKind)
    requires
        e is AddInRegionAtPlayhead || e is AddOutRegionAtPlayhead || e is GenerateExitRegions
            || e is GenerateExitRegionsInRange || e is SetLoopBeginAtPlayhead
            || e is SetLoopEndAtPlayhead || e is ClearLoop || e is ClearRegions,
    ensures
        kind != h.controls.current_section ==> hub_after(h, e).takes.get(kind) == h.takes.get(
            kind,
        ),
        h.takes.get(kind) is Some <==> hub_after(h, e).takes.get(kind) is Some,
        h.takes.get(kind) matches Some(t) ==> hub_after(h, e).takes.get(kind)->0.kept()
            == t.kept(),
{
}

/// Leaving a section and coming back keeps where its take was dragged to.
pub proof fn drag_survives_a_switch(h: HubView, away: SectionKind, len: u64)
    requires
        h.current() is Some,
        away != h.controls.current_section,
    ensures
        ({
            let home = h.controls.current_section;
            let left = hub_after(h, HubEvent::SelectSection(away));
            let back = hub_after(left, HubEvent::SelectSection(home));
            back.takes.get(home) matches Some(t) && section_on(back, t, len).controls.take_offset
                == h.controls.take_offset
        }),
{
}

proof fn lemma_kept_of(t: TakesView, kind: SectionKind)
    ensures
        crate::session::takes_of(t.kept(), kind) =~= match t.get(kind) {
            Some(x) => seq![x.kept()],
            None => Seq::empty(),
        },
{
    let f = crate::session::take_if(kind);
    let a = match t.intro {
        Some(x) => seq![(SectionKind::Intro, x.kept())],
        None => Seq::empty(),
    };
    let b = match t.main {
        Some(x) => seq![(SectionKind::Main, x.kept())],
        None => Seq::empty(),
    };
    let c = match t.outro {
        Some(x) => seq![(SectionKind::Outro, x.kept())],
        None => Seq::empty(),
    };
    lemma_picked_append(a + b, c, f);
    lemma_picked_append(a, b, f);
    if let Some(x) = t.intro {
        lemma_picked_one((SectionKind::Intro, x.kept()), f);
    }
    if let Some(x) = t.main {
        lemma_picked_one((SectionKind::Main, x.kept()), f);
    }
    if let Some(x) = t.outro {
        lemma_picked_one((SectionKind::Outro, x.kept()), f);
    }
}

/// What a session kept of the hub, the hub takes back from it.
pub proof fn session_comes_back(h: HubView, other: HubView, s: SessionView, root: Seq<char>)
    requires
        s.session_name == h.session_name,
        s.time_sig_num == h.controls.time_sig_num,
        s.target_lufs == h.controls.target_lufs,
        s.zoom == h.controls.zoom,
        s.snap_to_grid == h.controls.snap_to_grid,
        s.layer_names == h.layer_names,
        take_sections(s.project.first_sections(), h.takes.kept()),
        controls_in_bounds(h.controls),
        h.layer_names.len() == other.controls.num_sources,
        (Real32 { bits: ZOOM_MIN_BITS }).at_most(h.controls.zoom),
        h.controls.zoom.at_most(Real32 { bits: ZOOM_MAX_BITS }),
    ensures
        ({
            let r = session_on(other, s, root);
            &&& r.session_name == h.session_name
            &&& r.layer_names == h.layer_names
            &&& r.controls.zoom == h.controls.zoom
            &&& r.controls.time_sig_num == h.controls.time_sig_num
            &&& r.controls.target_lufs == h.controls.target_lufs
            &&& r.controls.snap_to_grid == h.controls.snap_to_grid
            &&& forall|kind: SectionKind|
                #[trigger] r.takes.get(kind) == match h.takes.get(kind) {
                    Some(x) => Some(bare_take(x.kept())),
                    None => None,
                }
        }),
{
    crate::hub::takes::kept_takes_come_back(h.takes);
    let kept = h.takes.kept();
    crate::session::section_takes_come_back(s.project, kept);
    lemma_kept_of(h.takes, SectionKind::Intro);
    lemma_kept_of(h.takes, SectionKind::Main);
    lemma_kept_of(h.takes, SectionKind::Outro);
    assert(picked(s.project.first_sections(), section_take()) =~= kept);
    let r = session_on(other, s, root);
    assert(r.layer_names =~= h.layer_names);
}

/// A take that is recorded again keeps the regions and the loop window of the
/// one before it.
pub proof fn recording_again_keeps_regions(h: HubView, armed: Seq<usize>)
    requires
        h.current() is Some,
    ensures
        ({
            let t = h.with_current(Some(new_take(h, armed))).current();
            &&& t is Some
            &&& t->0.in_regions == h.current()->0.in_regions
            &&& t->0.out_regions == h.current()->0.out_regions
            &&& t->0.loop_range == h.current()->0.loop_range
            &&& t->0.armed == armed
        }),
{
}

} // verus!
