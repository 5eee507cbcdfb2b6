//! What each control of the hub changes, and what it leaves alone.
use vstd::prelude::*;

use crate::adaptive::one;
use crate::adaptive::two;
use crate::adaptive::zero;
use crate::adaptive::MixerView;
use crate::adaptive::Mode;
use crate::adaptive::Mood;
use crate::adaptive::SlotField;
use crate::adaptive::SlotParams;
use crate::hub::mixer::mixer_after;
use crate::hub::mixer::preset_named;
use crate::hub::mixer::step_fits;
use crate::hub::mixer::MixerEvent;
use crate::hub::mixer::SMOOTH_MAX_BITS;
use crate::hub::state::action_after;
use crate::hub::state::engine_off;
use crate::hub::state::engine_on;
use crate::hub::state::event_fits;
use crate::hub::state::export_of;
use crate::hub::state::first_hub;
use crate::hub::state::hub_after;
use crate::hub::state::import_off;
use crate::hub::state::import_on;
use crate::hub::state::named_for_import;
use crate::hub::state::new_take;
use crate::hub::state::plan_for;
use crate::hub::state::pointed;
use crate::hub::state::recording_on;
use crate::hub::state::section_off;
use crate::hub::state::section_on;
use crate::hub::state::session_on;
use crate::hub::state::Controls;
use crate::hub::state::ExportCheck;
use crate::hub::state::HubAction;
use crate::hub::state::HubEvent;
use crate::hub::state::HubView;
use crate::hub::state::LUFS_MIN_BITS;
use crate::hub::state::ZOOM_MAX_BITS;
use crate::hub::state::ZOOM_MIN_BITS;
use crate::hub::takes::SectionTakeView;
use crate::navigator::edit_laws::differs_at;
use crate::navigator::model::SectionKind;
use crate::number::Real32;
use crate::playback::Playback;
use crate::recording::ControlView;
use crate::recording::RecordView;
use crate::session::SessionView;
use crate::text::blank;

verus! {

/// `r` is `v` held between `lo` and `hi`: `v` itself where it lies there, else
/// the bound that it is beyond.
pub open spec fn holds_between(v: Real32, lo: Real32, hi: Real32, r: Real32) -> bool {
    &&& lo.at_most(v) && v.at_most(hi) ==> r == v
    &&& v.below(lo) ==> r == lo
    &&& hi.below(v) ==> r == hi
}

/// The two hubs differ in their settings at most.
pub open spec fn but_controls(h: HubView, r: HubView) -> bool {
    (HubView { controls: h.controls, ..r }) == h
}

/// The zoom follows its controls up to the largest and down to the smallest,
/// and is the original size after a reset. Nothing else changes.
pub proof fn zoom_controls(h: HubView, v: Real32)
    ensures
        ({
            let r = hub_after(h, HubEvent::ZoomIn(v));
            let max = Real32 { bits: ZOOM_MAX_BITS };
            &&& r.controls.zoom == if v.at_most(max) {
                v
            } else {
                max
            }
            &&& (Controls { zoom: h.controls.zoom, ..r.controls }) == h.controls
            &&& but_controls(h, r)
        }),
        ({
            let r = hub_after(h, HubEvent::ZoomOut(v));
            let min = Real32 { bits: ZOOM_MIN_BITS };
            &&& r.controls.zoom == if min.at_most(v) {
                v
            } else {
                min
            }
            &&& (Controls { zoom: h.controls.zoom, ..r.controls }) == h.controls
            &&& but_controls(h, r)
        }),
        ({
            let r = hub_after(h, HubEvent::ZoomReset);
            &&& r.controls.zoom == one()
            &&& (Controls { zoom: h.controls.zoom, ..r.controls }) == h.controls
            &&& but_controls(h, r)
        }),
{
}

/// The beats per bar move by the steps asked for, and stop at 1 and at 32.
/// Nothing else changes.
pub proof fn meter_control(h: HubView, d: i32)
    requires
        h.controls.time_sig_num <= i32::MAX,
        event_fits(h, HubEvent::TimeSigNumChanged(d)),
    ensures
        ({
            let r = hub_after(h, HubEvent::TimeSigNumChanged(d));
            let n = h.controls.time_sig_num + d;
            &&& 1 <= n <= 32 ==> r.controls.time_sig_num == n
            &&& n < 1 ==> r.controls.time_sig_num == 1
            &&& n > 32 ==> r.controls.time_sig_num == 32
            &&& (Controls { time_sig_num: h.controls.time_sig_num, ..r.controls }) == h.controls
            &&& but_controls(h, r)
        }),
{
}

/// The group of new regions moves by the steps asked for, and stops at 0 and
/// at 15. Their fade takes the shape between nothing and one, and the part
/// between nothing and two. Exits are made every bar at least. Nothing else
/// changes.
pub proof fn region_style_controls(h: HubView, d: i32, v: Real32, bars: u32)
    requires
        h.controls.region_group <= i32::MAX,
        event_fits(h, HubEvent::SetRegionGroup(d)),
    ensures
        ({
            let r = hub_after(h, HubEvent::SetRegionGroup(d));
            let n = h.controls.region_group + d;
            &&& 0 <= n <= 15 ==> r.controls.region_group == n
            &&& n < 0 ==> r.controls.region_group == 0
            &&& n > 15 ==> r.controls.region_group == 15
            &&& (Controls { region_group: h.controls.region_group, ..r.controls }) == h.controls
            &&& but_controls(h, r)
        }),
        ({
            let r = hub_after(h, HubEvent::SetRegionFadeShape(v));
            &&& holds_between(v, zero(), one(), r.controls.region_fade_shape)
            &&& (Controls { region_fade_shape: h.controls.region_fade_shape, ..r.controls })
                == h.controls
            &&& but_controls(h, r)
        }),
        ({
            let r = hub_after(h, HubEvent::SetRegionFadePct(v));
            &&& holds_between(v, zero(), two(), r.controls.region_fade_pct)
            &&& (Controls { region_fade_pct: h.controls.region_fade_pct, ..r.controls })
                == h.controls
            &&& but_controls(h, r)
        }),
        ({
            let r = hub_after(h, HubEvent::SetExitBars(bars));
            &&& bars >= 1 ==> r.controls.exit_bars == bars
            &&& bars == 0 ==> r.controls.exit_bars == 1
            &&& (Controls { exit_bars: h.controls.exit_bars, ..r.controls }) == h.controls
            &&& but_controls(h, r)
        }),
{
}

/// The loudness that is aimed at is held between the lowest and full scale.
/// Nothing else changes.
pub proof fn loudness_control(h: HubView, v: Real32)
    ensures
        ({
            let r = hub_after(h, HubEvent::SetTargetLufs(v));
            &&& holds_between(v, Real32 { bits: LUFS_MIN_BITS }, zero(), r.controls.target_lufs)
            &&& (Controls { target_lufs: h.controls.target_lufs, ..r.controls }) == h.controls
            &&& but_controls(h, r)
        }),
{
}

/// A take that is dragged stands where it is dragged to. When it is let go it
/// moves to the grid only while snapping is on. Nothing else changes.
pub proof fn drag_controls(h: HubView, v: Real32, on: bool)
    ensures
        ({
            let r = hub_after(h, HubEvent::SetTakeOffset(v));
            &&& r.controls.take_offset == v
            &&& (Controls { take_offset: h.controls.take_offset, ..r.controls }) == h.controls
            &&& but_controls(h, r)
        }),
        h.controls.snap_to_grid ==> hub_after(h, HubEvent::CommitTakeOffset(v)) == hub_after(
            h,
            HubEvent::SetTakeOffset(v),
        ),
        !h.controls.snap_to_grid ==> hub_after(h, HubEvent::CommitTakeOffset(v)) == h,
        ({
            let r = hub_after(h, HubEvent::ToggleSnap(on));
            &&& r.controls.snap_to_grid == on
            &&& (Controls { snap_to_grid: h.controls.snap_to_grid, ..r.controls }) == h.controls
            &&& but_controls(h, r)
        }),
{
}

/// A selected range is kept until another is selected or it is cleared. The
/// popover opens and closes in turn. Nothing else changes.
pub proof fn selection_controls(h: HubView, a: u64, b: u64)
    ensures
        ({
            let r = hub_after(h, HubEvent::SetSelection(a, b));
            &&& r.controls.selection == Some((a, b))
            &&& (Controls { selection: h.controls.selection, ..r.controls }) == h.controls
            &&& but_controls(h, r)
        }),
        ({
            let r = hub_after(h, HubEvent::ClearSelection);
            &&& r.controls.selection is None
            &&& (Controls { selection: h.controls.selection, ..r.controls }) == h.controls
            &&& but_controls(h, r)
        }),
        ({
            let r = hub_after(h, HubEvent::ToggleTargetCurvePopover);
            &&& r.controls.popover_open != h.controls.popover_open
            &&& hub_after(r, HubEvent::ToggleTargetCurvePopover) == h
        }),
{
}

/// The transport moves only over a loaded take. It pauses where it is, stops at
/// the start, and is moved to a frame of the take at most its end. Nothing else
/// changes.
pub proof fn transport_controls(h: HubView, frame: u64)
    ensures
        ({
            let r = hub_after(h, HubEvent::PlaybackPlay);
            let (o, t) = (h.transport, r.transport);
            &&& o.loaded ==> t.playing
            &&& !o.loaded ==> r == h
            &&& o.loaded && o.position < o.len_frames ==> t.position == o.position
            &&& o.loaded && o.position >= o.len_frames ==> t.position == 0
            &&& t.len_frames == o.len_frames && t.loaded == o.loaded
            &&& (HubView { transport: o, ..r }) == h
        }),
        ({
            let r = hub_after(h, HubEvent::PlaybackPause);
            &&& !r.transport.playing
            &&& (Playback { playing: h.transport.playing, ..r.transport }) == h.transport
            &&& (HubView { transport: h.transport, ..r }) == h
        }),
        ({
            let r = hub_after(h, HubEvent::PlaybackStop);
            &&& !r.transport.playing && r.transport.position == 0
            &&& r.transport.len_frames == h.transport.len_frames
            &&& r.transport.loaded == h.transport.loaded
            &&& (HubView { transport: h.transport, ..r }) == h
        }),
        ({
            let r = hub_after(h, HubEvent::SetPlayhead(frame));
            let (o, t) = (h.transport, r.transport);
            &&& !o.loaded ==> r == h
            &&& o.loaded && frame <= o.len_frames ==> t.position == frame
            &&& o.loaded && frame > o.len_frames ==> t.position == o.len_frames
            &&& (Playback { position: o.position, ..t }) == o
            &&& (HubView { transport: o, ..r }) == h
        }),
        ({
            let r = hub_after(h, HubEvent::SequenceStarted);
            &&& !r.transport.playing && r.status is Some
            &&& (Playback { playing: h.transport.playing, ..r.transport }) == h.transport
            &&& (HubView { transport: h.transport, status: h.status, ..r }) == h
        }),
        ({
            let r = hub_after(h, HubEvent::SequenceUnavailable);
            &&& r.status is Some
            &&& (HubView { status: h.status, ..r }) == h
        }),
{
}

/// A source is armed or not as asked, unless it is not there or a recording
/// runs. No other source changes, and nothing else does.
pub proof fn arm_control(h: HubView, i: usize, on: bool)
    ensures
        ({
            let r = hub_after(h, HubEvent::SetArm(i, on));
            &&& (HubView { recorder: h.recorder, ..r }) == h
            &&& h.recorder is None ==> r.recorder is None
            &&& h.recorder matches Some(o) ==> {
                &&& r.recorder is Some
                &&& differs_at(o.state.armed, i as int, r.recorder->0.state.armed)
                &&& !o.recording && i < o.state.armed.len() ==> r.recorder->0.state.armed[i as int]
                    == on
                &&& o.recording || i >= o.state.armed.len() ==> r == h
                &&& (ControlView {
                    state: RecordView { armed: o.state.armed, ..r.recorder->0.state },
                    ..r.recorder->0
                }) == o
            }
        }),
{
}

/// A name is given to the session, or to one source: the names of the others
/// stay, and where there were too few those between are empty. Nothing else
/// changes.
pub proof fn naming_controls(h: HubView, i: usize, name: String)
    requires
        i < usize::MAX,
    ensures
        ({
            let r = hub_after(h, HubEvent::SetSessionName(name));
            &&& r.session_name == name@
            &&& (HubView { session_name: h.session_name, ..r }) == h
        }),
        ({
            let r = hub_after(h, HubEvent::SetLayerName(i, name));
            let (o, n) = (h.layer_names, r.layer_names);
            &&& n[i as int] == name@
            &&& i < o.len() ==> n.len() == o.len()
            &&& i >= o.len() ==> n.len() == i + 1
            &&& forall|k: int| 0 <= k < o.len() && k != i ==> #[trigger] n[k] == o[k]
            &&& forall|k: int| o.len() <= k < i ==> (#[trigger] n[k]).len() == 0
            &&& (HubView { layer_names: o, ..r }) == h
        }),
{
}

/// Another section is selected: the drag goes into the take of the section that
/// is left, the other takes stay, and the new section is loaded. The same
/// section again changes nothing.
pub proof fn section_controls(h: HubView, kind: SectionKind, other: SectionKind)
    ensures
        kind == h.controls.current_section ==> hub_after(h, HubEvent::SelectSection(kind)) == h
            && action_after(h, HubEvent::SelectSection(kind)) == HubAction::Nothing,
        kind != h.controls.current_section ==> {
            let r = hub_after(h, HubEvent::SelectSection(kind));
            let left = h.controls.current_section;
            &&& r.controls.current_section == kind
            &&& (Controls { current_section: left, ..r.controls }) == h.controls
            &&& (HubView { controls: h.controls, takes: h.takes, ..r }) == h
            &&& other != left ==> r.takes.get(other) == h.takes.get(other)
            &&& h.takes.get(left) is None ==> r.takes.get(left) is None
            &&& h.takes.get(left) matches Some(t) ==> (r.takes.get(left) matches Some(n)
                && n.user_offset_units == h.controls.take_offset && (SectionTakeView {
                user_offset_units: t.user_offset_units,
                ..n
            }) == t)
            &&& action_after(h, HubEvent::SelectSection(kind)) == HubAction::LoadSection(kind)
        },
        ({
            let r = hub_after(h, HubEvent::AddSection(kind));
            &&& r.controls.current_section == kind
            &&& (Controls { current_section: h.controls.current_section, ..r.controls })
                == h.controls
            &&& but_controls(h, r)
            &&& action_after(h, HubEvent::AddSection(kind)) == HubAction::LoadSection(kind)
        }),
{
}

/// Only a change of section asks for a load, and only the loudness asks for new
/// gains.
pub proof fn actions_are_asked_for(h: HubView, e: HubEvent)
    ensures
        action_after(h, e) is LoadSection <==> e is AddSection || (
        e matches HubEvent::SelectSection(kind) && kind != h.controls.current_section),
        action_after(h, e) is LoadSection ==> action_after(h, e)->LoadSection_0 == hub_after(
            h,
            e,
        ).controls.current_section,
        action_after(h, e) is RefreshGains <==> e is SetTargetLufs,
{
}

/// What a region or loop control does to the take of the current section where
/// there is one; without one nothing changes.
pub proof fn region_controls(h: HubView, e: HubEvent)
    requires
        event_fits(h, e),
        e is AddInRegionAtPlayhead || e is AddOutRegionAtPlayhead || e is GenerateExitRegions
            || e is GenerateExitRegionsInRange || e is SetLoopBeginAtPlayhead
            || e is SetLoopEndAtPlayhead || e is ClearLoop || e is ClearRegions,
    ensures
        ({
            let r = hub_after(h, e);
            let c = h.controls;
            let at = h.transport.position;
            h.current() matches Some(t) ==> r.current() is Some && {
                let n = r.current()->0;
                match e {
                    HubEvent::AddInRegionAtPlayhead(span) => n == t.with_entry(
                        at,
                        span,
                        c.style_of(),
                    ) && (HubView { takes: h.takes, ..r }) == h,
                    HubEvent::AddOutRegionAtPlayhead(span) => n == t.with_exit(
                        at,
                        span,
                        c.style_of(),
                    ) && (HubView { takes: h.takes, ..r }) == h,
                    HubEvent::SetLoopBeginAtPlayhead => {
                        &&& n.loop_range matches Some((b, end)) && b == at && b < end
                        &&& (SectionTakeView { loop_range: t.loop_range, ..n }) == t
                        &&& (HubView { takes: h.takes, ..r }) == h
                    },
                    HubEvent::SetLoopEndAtPlayhead => {
                        &&& n.loop_range matches Some((b, end)) && (at > 0 ==> end == at && b < end)
                        &&& (SectionTakeView { loop_range: t.loop_range, ..n }) == t
                        &&& (HubView { takes: h.takes, ..r }) == h
                    },
                    HubEvent::ClearLoop => {
                        &&& n.loop_range is None
                        &&& (SectionTakeView { loop_range: t.loop_range, ..n }) == t
                        &&& (HubView { takes: h.takes, ..r }) == h
                    },
                    HubEvent::ClearRegions => {
                        &&& n.in_regions.len() == 0 && n.out_regions.len() == 0
                        &&& (SectionTakeView {
                            in_regions: t.in_regions,
                            out_regions: t.out_regions,
                            ..n
                        }) == t
                        &&& (HubView { takes: h.takes, ..r }) == h
                    },
                    HubEvent::GenerateExitRegions(grid, len) => {
                        &&& len == 0 ==> r == h
                        &&& (SectionTakeView { out_regions: t.out_regions, ..n }) == t
                        &&& (HubView { takes: h.takes, ..r }) == h
                    },
                    HubEvent::GenerateExitRegionsInRange(grid, len) => {
                        &&& (SectionTakeView { out_regions: t.out_regions, ..n }) == t
                        &&& c.selection is None ==> r.status is Some && (HubView {
                            status: h.status,
                            ..r
                        }) == h
                        &&& c.selection is Some ==> (HubView { takes: h.takes, ..r }) == h
                    },
                    _ => true,
                }
            }
        }),
        h.current() is None && !(e is GenerateExitRegionsInRange) ==> hub_after(h, e) == h,
{
}

/// New regions have the fade and the group that the controls show.
pub proof fn new_regions_take_the_style(c: Controls)
    ensures
        c.style_of().fade_pct == c.region_fade_pct,
        c.style_of().fade_shape == c.region_fade_shape,
        c.style_of().group == c.region_group,
{
}

/// A mixer event is the mixer's alone.
pub proof fn mixer_events_stay_in_the_mixer(h: HubView, e: MixerEvent)
    ensures
        (HubView { adaptive: h.adaptive, ..hub_after(h, HubEvent::Mixer(e)) }) == h,
        hub_after(h, HubEvent::Mixer(e)).adaptive == mixer_after(h.adaptive, e),
{
}

// Around the controls.

/// At first nothing is recorded, loaded, selected or named.
pub proof fn a_hub_begins_empty(kind: SectionKind)
    ensures
        ({
            let h = first_hub();
            &&& h.takes.get(kind) is None
            &&& h.controls.current_section == SectionKind::Main
            &&& h.controls.selection is None
            &&& h.controls.num_sources == 0
            &&& h.controls.snap_to_grid && !h.controls.popover_open
            &&& h.controls.zoom == one() && h.controls.take_offset == zero()
            &&& h.controls.time_sig_num == 4 && h.controls.start_time_sig == 4
            &&& (Real32 { bits: LUFS_MIN_BITS }).below(h.controls.target_lufs)
            &&& h.controls.target_lufs.below(zero())
            &&& !h.transport.loaded && !h.transport.playing
            &&& h.recorder is None && h.status is None
            &&& h.session_name.len() == 0 && h.layer_names.len() == 0
            &&& !h.adaptive.enabled
            &&& export_of(h) == ExportCheck::NoTake
        }),
{
}

/// When sound comes in there is a name for each source, those that were given
/// are kept, and a recorder with no source armed. Without sound there is no
/// recorder. Nothing else changes.
pub proof fn sound_comes_in(h: HubView, n: usize, armable: usize)
    ensures
        ({
            let r = engine_on(h, n, armable);
            &&& r.controls.num_sources == n
            &&& (Controls { num_sources: h.controls.num_sources, ..r.controls }) == h.controls
            &&& r.layer_names.len() == n
            &&& forall|k: int|
                0 <= k < n && k < h.layer_names.len() ==> #[trigger] r.layer_names[k]
                    == h.layer_names[k]
            &&& forall|k: int| h.layer_names.len() <= k < n ==> (#[trigger] r.layer_names[k]).len()
                == 0
            &&& r.recorder matches Some(c) && c.state.armed.len() == armable && !c.recording
                && !c.state.active && c.last_session is None && c.error is None && (forall|k: int|
                0 <= k < armable ==> !(#[trigger] c.state.armed[k]))
            &&& (HubView {
                controls: h.controls,
                layer_names: h.layer_names,
                recorder: h.recorder,
                ..r
            }) == h
        }),
        ({
            let r = engine_off(h, n);
            &&& r.recorder is None && r.controls.num_sources == n
            &&& (Controls { num_sources: h.controls.num_sources, ..r.controls }) == h.controls
            &&& (HubView { controls: h.controls, recorder: h.recorder, ..r }) == h
        }),
{
}

/// When a recording starts the transport stands still, the grid of the take to
/// come is noted, and a session without a name gets one. Nothing else changes.
pub proof fn a_recording_starts(h: HubView, name: Seq<char>, pulses: u64, bpm: Real32)
    ensures
        ({
            let r = recording_on(h, name, pulses, bpm);
            &&& blank(h.session_name) ==> r.session_name == name
            &&& !blank(h.session_name) ==> r.session_name == h.session_name
            &&& r.controls.start_pulses == pulses && r.controls.start_bpm == bpm
            &&& r.controls.start_time_sig == h.controls.time_sig_num
            &&& r.controls.take_offset == zero()
            &&& (Controls {
                start_pulses: h.controls.start_pulses,
                start_bpm: h.controls.start_bpm,
                start_time_sig: h.controls.start_time_sig,
                take_offset: h.controls.take_offset,
                ..r.controls
            }) == h.controls
            &&& !r.transport.playing
            &&& (Playback { playing: h.transport.playing, ..r.transport }) == h.transport
            &&& (HubView {
                session_name: h.session_name,
                controls: h.controls,
                transport: h.transport,
                ..r
            }) == h
        }),
{
}

/// A take that was recorded from start to end has the grid that the recording
/// started with, and has not been dragged.
pub proof fn a_take_has_the_grid_it_started_with(
    h: HubView,
    name: Seq<char>,
    pulses: u64,
    bpm: Real32,
    armed: Seq<usize>,
)
    ensures
        ({
            let t = new_take(recording_on(h, name, pulses, bpm), armed);
            &&& t.armed == armed && t.start_pulses == pulses && t.bpm == bpm
            &&& t.time_sig == h.controls.time_sig_num
            &&& t.user_offset_units == zero()
            &&& h.current() is None ==> t.in_regions.len() == 0 && t.out_regions.len() == 0
                && t.loop_range is None
        }),
{
}

/// Loading the take of a section shows its grid and drag, with the transport at
/// its start. Loading nothing leaves nothing to play. Nothing else changes.
pub proof fn a_section_is_shown(h: HubView, t: SectionTakeView, len: u64)
    ensures
        ({
            let r = section_on(h, t, len);
            &&& r.controls.start_pulses == t.start_pulses && r.controls.start_bpm == t.bpm
            &&& r.controls.start_time_sig == t.time_sig
            &&& r.controls.take_offset == t.user_offset_units
            &&& r.transport.loaded && !r.transport.playing
            &&& r.transport.position == 0 && r.transport.len_frames == len
            &&& (Controls {
                start_pulses: h.controls.start_pulses,
                start_bpm: h.controls.start_bpm,
                start_time_sig: h.controls.start_time_sig,
                take_offset: h.controls.take_offset,
                ..r.controls
            }) == h.controls
            &&& (HubView { controls: h.controls, transport: h.transport, ..r }) == h
        }),
        ({
            let r = section_off(h);
            &&& !r.transport.loaded && !r.transport.playing
            &&& r.transport.position == 0 && r.transport.len_frames == 0
            &&& r.controls.take_offset == zero()
            &&& (Controls { take_offset: h.controls.take_offset, ..r.controls }) == h.controls
            &&& (HubView { controls: h.controls, transport: h.transport, ..r }) == h
        }),
{
}

/// A section without a take is cleared; one with a take is read only where it
/// is not at hand.
pub proof fn only_missing_takes_are_read(h: HubView, kind: SectionKind, cached: bool)
    ensures
        plan_for(h, kind, cached) is Clear <==> h.takes.get(kind) is None,
        plan_for(h, kind, cached) is Read <==> h.takes.get(kind) is Some && !cached,
        plan_for(h, kind, cached) is Cached <==> h.takes.get(kind) is Some && cached,
{
}

/// Stems are exported of a loaded take with a session to put them in.
pub proof fn stems_need_a_take_and_a_session(h: HubView)
    ensures
        export_of(h) is Ready <==> h.transport.loaded && (h.recorder matches Some(c)
            && c.last_session is Some),
        export_of(h) is NoTake <==> !h.transport.loaded,
        export_of(h) is NoRecorder <==> h.transport.loaded && h.recorder is None,
        export_of(section_off(h)) is NoTake,
{
}

/// The recorder is pointed at a session: it keeps its sources and whether it
/// runs, and takes over the sources of the take where there is one.
pub proof fn the_recorder_is_pointed(
    r: Option<ControlView>,
    root: Seq<char>,
    name: Seq<char>,
    armed: Option<Seq<usize>>,
)
    ensures
        r is None ==> pointed(r, root, name, armed) is None,
        r matches Some(o) ==> (pointed(r, root, name, armed) matches Some(n) && n.last_session
            == Some(root) && n.last_session_name == Some(name) && n.last_armed == (match armed {
            Some(a) => a,
            None => o.last_armed,
        }) && (ControlView {
            last_session: o.last_session,
            last_session_name: o.last_session_name,
            last_armed: o.last_armed,
            ..n
        }) == o),
{
}

/// A session that is loaded is taken over in its bounds: the zoom that is
/// shown, at least one beat in a bar, and a name for each source. What the
/// session does not hold stays.
pub proof fn a_session_is_taken_over(h: HubView, s: SessionView, root: Seq<char>)
    ensures
        ({
            let r = session_on(h, s, root);
            let (o, c) = (h.controls, r.controls);
            &&& r.session_name == s.session_name
            &&& c.target_lufs == s.target_lufs && c.snap_to_grid == s.snap_to_grid
            &&& holds_between(
                s.zoom,
                Real32 { bits: ZOOM_MIN_BITS },
                Real32 { bits: ZOOM_MAX_BITS },
                c.zoom,
            )
            &&& s.time_sig_num >= 1 ==> c.time_sig_num == s.time_sig_num
            &&& s.time_sig_num == 0 ==> c.time_sig_num == 1
            &&& r.layer_names.len() == o.num_sources
            &&& forall|k: int|
                0 <= k < r.layer_names.len() ==> #[trigger] r.layer_names[k] == if k
                    < s.layer_names.len() {
                    s.layer_names[k]
                } else {
                    Seq::empty()
                }
            &&& r.recorder is Some <==> h.recorder is Some
            &&& r.recorder matches Some(n) ==> n.last_session == Some(root) && n.last_session_name
                == Some(s.session_name)
            &&& r.takes.main is Some ==> c.current_section == SectionKind::Main
            &&& r.status is Some
            &&& (Controls {
                target_lufs: o.target_lufs,
                zoom: o.zoom,
                snap_to_grid: o.snap_to_grid,
                time_sig_num: o.time_sig_num,
                current_section: o.current_section,
                ..c
            }) == o
            &&& (HubView {
                session_name: h.session_name,
                controls: o,
                layer_names: h.layer_names,
                takes: h.takes,
                recorder: h.recorder,
                status: h.status,
                ..r
            }) == h
        }),
{
}

/// A bundle is brought in to the session that is there, or to one named after
/// it, in place of the takes of the one before. Then Main is shown where it has
/// a take.
pub proof fn a_bundle_is_taken_over(
    h: HubView,
    code: Seq<char>,
    root: Seq<char>,
    dir: Seq<char>,
    kind: SectionKind,
)
    ensures
        ({
            let r = named_for_import(h, code);
            &&& r.session_name == if blank(h.session_name) {
                code
            } else {
                h.session_name
            }
            &&& (HubView { session_name: h.session_name, ..r }) == h
        }),
        ({
            let r = import_on(h, root);
            &&& r.takes.get(kind) is None
            &&& r.recorder is Some <==> h.recorder is Some
            &&& r.recorder matches Some(n) ==> n.last_session == Some(root) && n.last_session_name
                == Some(h.session_name) && n.last_armed == h.recorder->0.last_armed
            &&& (HubView { takes: h.takes, recorder: h.recorder, ..r }) == h
        }),
        ({
            let r = import_off(h, dir);
            &&& h.takes.main is Some ==> r.controls.current_section == SectionKind::Main
            &&& h.takes.get(kind) is Some ==> h.takes.get(r.controls.current_section) is Some
            &&& r.status is Some
            &&& (Controls { current_section: h.controls.current_section, ..r.controls })
                == h.controls
            &&& (HubView { controls: h.controls, status: h.status, ..r }) == h
        }),
{
}

// The adaptive mixer.

/// The switches of the mixer take what they are given, the intensity between
/// nothing and one, and the ramp between a millisecond and the longest. Each
/// changes nothing else.
pub proof fn mixer_switches(m: MixerView, on: bool, v: Real32, mood: Mood, mode: Mode)
    ensures
        ({
            let r = mixer_after(m, MixerEvent::Enable(on));
            r.enabled == on && (MixerView { enabled: m.enabled, ..r }) == m
        }),
        ({
            let r = mixer_after(m, MixerEvent::SetIntensity(v));
            holds_between(v, zero(), one(), r.intensity) && (MixerView {
                intensity: m.intensity,
                ..r
            }) == m
        }),
        ({
            let r = mixer_after(m, MixerEvent::SetMood(mood));
            r.mood == mood && (MixerView { mood: m.mood, ..r }) == m
        }),
        ({
            let r = mixer_after(m, MixerEvent::SetMode(mode));
            r.mode == mode && (MixerView { mode: m.mode, ..r }) == m
        }),
        ({
            let r = mixer_after(m, MixerEvent::SetSmoothMs(v));
            holds_between(v, one(), Real32 { bits: SMOOTH_MAX_BITS }, r.smooth_ms) && (MixerView {
                smooth_ms: m.smooth_ms,
                ..r
            }) == m
        }),
        ({
            let r = mixer_after(m, MixerEvent::ActivateTargetCurve(on));
            r.activate_target_curve == on && (MixerView {
                activate_target_curve: m.activate_target_curve,
                ..r
            }) == m
        }),
{
}

/// The controls of a slot change the curve of that slot alone. Where there is
/// no such slot nothing changes.
pub proof fn slot_controls(
    m: MixerView,
    slot: usize,
    field: SlotField,
    v: Real32,
    delta: i32,
    label: String,
)
    requires
        m.slot_params.len() == 8,
    ensures
        ({
            let r = mixer_after(m, MixerEvent::SetSlotField(slot, field, v));
            &&& differs_at(m.slot_params, slot as int, r.slot_params)
            &&& slot < 8 ==> r.slot_params[slot as int] == m.slot_params[slot as int].with_field(
                field,
                v,
            )
            &&& (MixerView { slot_params: m.slot_params, ..r }) == m
        }),
        ({
            let r = mixer_after(m, MixerEvent::SetSlotFormula(slot, delta));
            &&& differs_at(m.slot_params, slot as int, r.slot_params)
            &&& slot < 8 ==> {
                let (o, n) = (m.slot_params[slot as int], r.slot_params[slot as int]);
                &&& (SlotParams { formula: o.formula, ..n }) == o
                &&& 1 <= o.formula + delta <= 9 ==> n.formula == o.formula + delta
                &&& o.formula + delta < 1 ==> n.formula == 1
                &&& o.formula + delta > 9 ==> n.formula == 9
            }
            &&& (MixerView { slot_params: m.slot_params, ..r }) == m
        }),
        ({
            let r = mixer_after(m, MixerEvent::ApplySourcePreset(slot, label));
            &&& differs_at(m.slot_params, slot as int, r.slot_params)
            &&& slot < 8 ==> (preset_named(label@) matches Some(p) ==> r.slot_params[slot as int]
                == p)
            &&& preset_named(label@) is None ==> r == m
            &&& (MixerView { slot_params: m.slot_params, ..r }) == m
        }),
{
}

/// The controls of a target curve change that of their mode alone, and a reset
/// gives it back as it was in a new mixer.
pub proof fn target_curve_controls(m: MixerView, mode: Mode, field: SlotField, v: Real32, delta: i32)
    requires
        m.target_curve.len() == 4,
    ensures
        ({
            let r = mixer_after(m, MixerEvent::SetTargetCurveField(mode, field, v));
            &&& differs_at(m.target_curve, mode.row(), r.target_curve)
            &&& r.target_curve[mode.row()] == m.target_curve[mode.row()].with_field(field, v)
            &&& (MixerView { target_curve: m.target_curve, ..r }) == m
        }),
        ({
            let r = mixer_after(m, MixerEvent::SetTargetCurveFormula(mode, delta));
            let (o, n) = (m.target_curve[mode.row()], r.target_curve[mode.row()]);
            &&& differs_at(m.target_curve, mode.row(), r.target_curve)
            &&& (SlotParams { formula: o.formula, ..n }) == o
            &&& 1 <= o.formula + delta <= 9 ==> n.formula == o.formula + delta
            &&& o.formula + delta < 1 ==> n.formula == 1
            &&& o.formula + delta > 9 ==> n.formula == 9
            &&& (MixerView { target_curve: m.target_curve, ..r }) == m
        }),
        ({
            let r = mixer_after(m, MixerEvent::ResetTargetCurveToPreset(mode));
            &&& differs_at(m.target_curve, mode.row(), r.target_curve)
            &&& r.target_curve[mode.row()] == crate::adaptive::new_mixer().target_curve[mode.row()]
            &&& (MixerView { target_curve: m.target_curve, ..r }) == m
        }),
{
}

/// A cell of a mask takes its value between nothing and one, and no other cell
/// and nothing else changes.
pub proof fn mask_controls(m: MixerView, mood: Mood, slot: usize, v: Real32)
    requires
        m.mood_weight.len() == 3,
        m.balancer_mask.len() == 3,
        m.mood_weight[mood.row()].len() == 8,
        m.balancer_mask[mood.row()].len() == 8,
    ensures
        ({
            let r = mixer_after(m, MixerEvent::SetMoodWeight(mood, slot, v));
            let (o, n) = (m.mood_weight[mood.row()], r.mood_weight[mood.row()]);
            &&& differs_at(m.mood_weight, mood.row(), r.mood_weight)
            &&& differs_at(o, slot as int, n)
            &&& slot < 8 ==> holds_between(v, zero(), one(), n[slot as int])
            &&& (MixerView { mood_weight: m.mood_weight, ..r }) == m
        }),
        ({
            let r = mixer_after(m, MixerEvent::SetBalancerMask(mood, slot, v));
            let (o, n) = (m.balancer_mask[mood.row()], r.balancer_mask[mood.row()]);
            &&& differs_at(m.balancer_mask, mood.row(), r.balancer_mask)
            &&& differs_at(o, slot as int, n)
            &&& slot < 8 ==> holds_between(v, zero(), one(), n[slot as int])
            &&& (MixerView { balancer_mask: m.balancer_mask, ..r }) == m
        }),
{
}

/// A step fits unless it leads to a formula that 32 bits do not hold.
pub proof fn steps_fit(m: MixerView, slot: usize, mode: Mode, delta: i32)
    ensures
        delta <= i32::MAX - 255 ==> step_fits(m, MixerEvent::SetSlotFormula(slot, delta))
            && step_fits(m, MixerEvent::SetTargetCurveFormula(mode, delta)),
{
}

/// The moods and the modes have rows of their own.
pub proof fn rows_are_told_apart(a: Mood, b: Mood, x: Mode, y: Mode)
    ensures
        a != b ==> a.row() != b.row(),
        0 <= a.row() < 3,
        Mood::Dark.row() < Mood::Neutral.row() < Mood::Bright.row(),
        x != y ==> x.row() != y.row(),
        0 <= x.row() < 4,
        Mode::Music.row() < Mode::Locals.row() < Mode::Globals.row() < Mode::Combat.row(),
{
}

/// A field of a curve takes its value between zero and its upper bound, and no
/// other field changes.
pub proof fn curve_fields_are_set_alone(p: SlotParams, field: SlotField, v: Real32)
    ensures
        ({
            let r = p.with_field(field, v);
            match field {
                SlotField::Steepness => holds_between(v, zero(), one(), r.steepness) && (
                SlotParams { steepness: p.steepness, ..r }) == p,
                SlotField::Deviation => holds_between(v, zero(), one(), r.deviation) && (
                SlotParams { deviation: p.deviation, ..r }) == p,
                SlotField::Maximum => holds_between(v, zero(), two(), r.maximum) && (SlotParams {
                    maximum: p.maximum,
                    ..r
                }) == p,
                SlotField::Minimum => holds_between(v, zero(), one(), r.minimum) && (SlotParams {
                    minimum: p.minimum,
                    ..r
                }) == p,
                SlotField::Original => holds_between(v, zero(), one(), r.original_level) && (
                SlotParams { original_level: p.original_level, ..r }) == p,
            }
        }),
{
}

/// Values are compared as numbers are: those with a sign are below those
/// without, the two zeros are alike, and the larger the bits behind the sign,
/// the further from zero. What is not a number is not compared.
pub proof fn values_are_ordered(x: Real32, y: Real32)
    requires
        !x.nan(),
        !y.nan(),
    ensures
        x.at_most(y) <==> !y.below(x),
        x.bits < 0x8000_0000 && y.bits < 0x8000_0000 ==> (x.below(y) <==> x.bits < y.bits),
        x.bits >= 0x8000_0000 && y.bits >= 0x8000_0000 ==> (x.below(y) <==> x.bits > y.bits),
        x.bits >= 0x8000_0000 && y.bits < 0x8000_0000 ==> x.at_most(y) && (x.below(y)
            <==> x.unsigned() != y || y.bits != 0),
        x.unsigned().bits < 0x8000_0000,
        x.unsigned() == x || x.unsigned().bits + 0x8000_0000 == x.bits,
        x.larger(y) == x || x.larger(y) == y,
        x.at_most(x.larger(y)) && y.at_most(x.larger(y)),
        x.smaller(y) == x || x.smaller(y) == y,
        x.smaller(y).at_most(x) && x.smaller(y).at_most(y),
{
}

/// The other value is taken where one is not a number.
pub proof fn numbers_are_preferred(x: Real32, y: Real32)
    requires
        x.nan(),
    ensures
        x.larger(y) == y,
        x.smaller(y) == y,
        !y.nan() ==> y.larger(x) == y && y.smaller(x) == y,
        !x.below(y) && !y.below(x) && !x.at_most(y) && !y.at_most(x),
        x.clamped(y, y) == x,
{
}

/// An event is taken unless it leads to a number that does not fit: from
/// settings in their bounds every step but the widest is taken, a source can be
/// named unless it is the last that can be counted, and a region can be added or
/// a loop begun unless the frames run out behind it.
pub proof fn events_are_taken(h: HubView, e: HubEvent)
    requires
        h.controls.time_sig_num <= 32,
        h.controls.region_group <= 15,
    ensures
        match e {
            HubEvent::TimeSigNumChanged(d) => d <= i32::MAX - 32 ==> event_fits(h, e),
            HubEvent::SetRegionGroup(d) => d <= i32::MAX - 15 ==> event_fits(h, e),
            HubEvent::SetLayerName(i, _) => event_fits(h, e) <==> i < usize::MAX,
            HubEvent::Mixer(m) => event_fits(h, e) <==> step_fits(h.adaptive, m),
            HubEvent::AddOutRegionAtPlayhead(span) => h.transport.position + span <= u64::MAX
                ==> event_fits(h, e),
            HubEvent::GenerateExitRegions(grid, len) => (grid matches Some(g) ==> len + g.interval
                <= u64::MAX && len + g.bar <= u64::MAX) ==> event_fits(h, e),
            HubEvent::GenerateExitRegionsInRange(grid, _) => (h.controls.selection matches Some(
                (a, b),
            ) ==> (grid matches Some(g) ==> a + g.interval <= u64::MAX && b + g.interval <= u64::MAX
                && b + g.bar <= u64::MAX)) ==> event_fits(h, e),
            HubEvent::SetLoopBeginAtPlayhead => h.transport.position < u64::MAX ==> event_fits(h, e),
            _ => event_fits(h, e),
        },
        h.current() is None && (e is AddOutRegionAtPlayhead || e is SetLoopBeginAtPlayhead)
            ==> event_fits(h, e),
{
}

} // verus!
