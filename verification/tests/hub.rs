use gatherer_hub::adaptive::{Mode, Mood, SlotField};
use gatherer_hub::asset::wlamodel::{clip_name, document, ParsedSection};
use gatherer_hub::hub::assembly::{
    bundle_clips, bundle_specs, plan_bundle, BundleSound, SectionSound,
};
use gatherer_hub::hub::bundle::{
    bank_file, bundle_folder, clip_id, imported_take, layer_id, layer_source, layers_to_write,
    model_file, pattern_id, plan_section, resolve_meta, section_spec, sort_sources,
};
use gatherer_hub::hub::labels::{
    export_status, folder_name, imported_status, loaded_status, loop_text, midi_status_line,
    rec_status, section_tab, source_label,
};
use gatherer_hub::hub::mixer::{find_preset, MixerEvent};
use gatherer_hub::hub::state::{ExportCheck, Hub, HubAction, HubEvent, LoadPlan};
use gatherer_hub::hub::takes::{
    generate_out_regions, sort_by_begin, BarGrid, RegionStyle, SectionTake, SectionTakes,
};
use gatherer_hub::listing::{list_sessions, list_templates};
use gatherer_hub::midi::GridState;
use gatherer_hub::navigator::model::{AssetMeta, Region, SectionKind};
use gatherer_hub::number::Real32;
use gatherer_hub::recording::{RecordState, RecorderControl};

fn num(x: f32) -> Real32 {
    Real32 { bits: x.to_bits() }
}

fn take(pulses: u64) -> SectionTake {
    SectionTake {
        armed: vec![0, 2],
        start_pulses: pulses,
        bpm: num(120.0),
        time_sig: 3,
        user_offset_units: num(0.5),
        in_regions: vec![],
        out_regions: vec![],
        loop_range: None,
    }
}

fn hub_with_main() -> Hub {
    let mut h = Hub::new();
    h.engine_started(4, 4);
    h.takes.insert(SectionKind::Main, take(96));
    h.section_loaded(SectionKind::Main, 10_000);
    h
}

fn main_take(h: &Hub) -> &SectionTake {
    h.takes.get(SectionKind::Main).unwrap()
}

fn begins(regions: &[Region]) -> Vec<u64> {
    regions.iter().map(|r| r.begin_frames).collect()
}

const STYLE: RegionStyle = RegionStyle {
    fade_pct: Real32 { bits: 0x3f80_0000 },
    fade_shape: Real32 { bits: 0x3f00_0000 },
    group: 3,
};

#[test]
fn arming_is_locked_while_recording() {
    let mut h = hub_with_main();
    h.update(HubEvent::SetArm(1, true));
    h.update(HubEvent::SetArm(9, true));
    assert_eq!(h.recorder.as_ref().unwrap().state.armed_sources(), vec![1]);
    h.recorder.as_mut().unwrap().recording = true;
    h.update(HubEvent::SetArm(2, true));
    assert_eq!(h.recorder.as_ref().unwrap().state.armed_sources(), vec![1]);
}

#[test]
fn settings_stay_in_their_bounds() {
    let mut h = Hub::new();
    h.update(HubEvent::TimeSigNumChanged(-9));
    assert_eq!(h.controls.time_sig_num, 1);
    h.update(HubEvent::TimeSigNumChanged(500));
    assert_eq!(h.controls.time_sig_num, 32);
    h.update(HubEvent::SetRegionGroup(-1));
    assert_eq!(h.controls.region_group, 0);
    h.update(HubEvent::SetRegionGroup(99));
    assert_eq!(h.controls.region_group, 15);
    h.update(HubEvent::SetExitBars(0));
    assert_eq!(h.controls.exit_bars, 1);
    h.update(HubEvent::ZoomIn(num(12.0)));
    assert_eq!(h.controls.zoom, num(8.0));
    h.update(HubEvent::ZoomOut(num(0.1)));
    assert_eq!(h.controls.zoom, num(0.15));
    h.update(HubEvent::ZoomReset);
    assert_eq!(h.controls.zoom, num(1.0));
    assert_eq!(h.update(HubEvent::SetTargetLufs(num(-60.0))), HubAction::RefreshGains);
    assert_eq!(h.controls.target_lufs, num(-40.0));
    h.update(HubEvent::SetRegionFadeShape(num(2.0)));
    h.update(HubEvent::SetRegionFadePct(num(3.0)));
    assert_eq!(h.controls.region_fade_shape, num(1.0));
    assert_eq!(h.controls.region_fade_pct, num(2.0));
}

#[test]
fn drags_snap_where_snapping_is_on() {
    let mut h = hub_with_main();
    h.update(HubEvent::SetTakeOffset(num(1.3)));
    h.update(HubEvent::CommitTakeOffset(num(1.0)));
    assert_eq!(h.controls.take_offset, num(1.0));
    h.update(HubEvent::ToggleSnap(false));
    h.update(HubEvent::SetTakeOffset(num(2.3)));
    h.update(HubEvent::CommitTakeOffset(num(2.0)));
    assert_eq!(h.controls.take_offset, num(2.3));
}

#[test]
fn seeking_stops_at_the_end() {
    let mut h = hub_with_main();
    h.update(HubEvent::SetPlayhead(99_999));
    assert_eq!(h.transport.position(), 10_000);
    h.update(HubEvent::SetPlayhead(77));
    h.update(HubEvent::PlaybackPlay);
    assert!(h.transport.is_playing());
    assert_eq!(h.transport.position(), 77);
    h.update(HubEvent::PlaybackPause);
    h.update(HubEvent::PlaybackStop);
    assert_eq!(h.transport.position(), 0);
    let mut empty = Hub::new();
    empty.update(HubEvent::SetPlayhead(5));
    assert_eq!(empty.transport.position(), 0);
}

#[test]
fn layer_names_fill_up() {
    let mut h = Hub::new();
    h.update(HubEvent::SetLayerName(2, "Bass".into()));
    assert_eq!(h.layer_names, vec!["", "", "Bass"]);
    h.update(HubEvent::SetLayerName(0, "Kick".into()));
    h.engine_started(2, 3);
    assert_eq!(h.layer_names, vec!["Kick", ""]);
    assert_eq!(h.recorder.as_ref().unwrap().state.num_sources(), 3);
    h.engine_failed(0);
    assert!(h.recorder.is_none());
    h.update(HubEvent::SetSessionName("s".into()));
    assert_eq!(h.session_name, "s");
}

#[test]
fn mixer_controls_reach_the_mixer() {
    let mut h = Hub::new();
    let e = |h: &mut Hub, m: MixerEvent| h.update(HubEvent::Mixer(m));
    e(&mut h, MixerEvent::Enable(true));
    e(&mut h, MixerEvent::SetIntensity(num(1.5)));
    e(&mut h, MixerEvent::SetMood(Mood::Dark));
    e(&mut h, MixerEvent::SetMode(Mode::Combat));
    e(&mut h, MixerEvent::SetSmoothMs(num(0.0)));
    e(&mut h, MixerEvent::ActivateTargetCurve(false));
    e(&mut h, MixerEvent::SetSlotField(1, SlotField::Minimum, num(0.25)));
    e(&mut h, MixerEvent::SetSlotField(8, SlotField::Minimum, num(0.25)));
    e(&mut h, MixerEvent::SetSlotFormula(1, 20));
    e(&mut h, MixerEvent::SetTargetCurveField(Mode::Locals, SlotField::Maximum, num(2.0)));
    e(&mut h, MixerEvent::SetTargetCurveFormula(Mode::Locals, -20));
    e(&mut h, MixerEvent::SetMoodWeight(Mood::Bright, 4, num(0.5)));
    e(&mut h, MixerEvent::SetBalancerMask(Mood::Neutral, 5, num(-0.5)));
    e(&mut h, MixerEvent::ApplySourcePreset(2, "F5".into()));
    e(&mut h, MixerEvent::ApplySourcePreset(3, "F10".into()));
    let m = &h.adaptive;
    assert!(m.enabled && !m.activate_target_curve);
    assert_eq!((m.intensity, m.smooth_ms), (num(1.0), num(1.0)));
    assert_eq!((m.mood, m.mode), (Mood::Dark, Mode::Combat));
    assert_eq!((m.slot_params[1].minimum, m.slot_params[1].formula), (num(0.25), 9));
    assert_eq!((m.target_curve[1].maximum, m.target_curve[1].formula), (num(2.0), 1));
    assert_eq!((m.mood_weight[2][4], m.balancer_mask[1][5]), (num(0.5), num(0.0)));
    assert_eq!(m.slot_params[2], find_preset("F5").unwrap());
    assert_eq!(m.slot_params[3].formula, 1);
    e(&mut h, MixerEvent::ResetTargetCurveToPreset(Mode::Locals));
    assert_eq!(h.adaptive.target_curve[1].formula, 7);
    h.update(HubEvent::ToggleTargetCurvePopover);
    assert!(h.controls.popover_open);
    assert_eq!(find_preset("F0"), None);
}

#[test]
fn switching_sections_keeps_the_drag() {
    let mut h = hub_with_main();
    h.takes.insert(SectionKind::Intro, take(0));
    h.update(HubEvent::SetTakeOffset(num(4.0)));
    assert_eq!(
        h.update(HubEvent::SelectSection(SectionKind::Intro)),
        HubAction::LoadSection(SectionKind::Intro)
    );
    h.section_loaded(SectionKind::Intro, 500);
    assert_eq!(h.controls.take_offset, num(0.5));
    assert_eq!(
        h.update(HubEvent::SelectSection(SectionKind::Intro)),
        HubAction::Nothing
    );
    h.update(HubEvent::SelectSection(SectionKind::Main));
    h.section_loaded(SectionKind::Main, 10_000);
    assert_eq!(h.controls.take_offset, num(4.0));
    assert_eq!(h.controls.start_pulses, 96);
    assert_eq!(
        h.update(HubEvent::AddSection(SectionKind::Outro)),
        HubAction::LoadSection(SectionKind::Outro)
    );
    assert_eq!(h.load_plan(SectionKind::Outro, true), LoadPlan::Clear);
    assert_eq!(h.load_plan(SectionKind::Main, true), LoadPlan::Cached);
    assert_eq!(h.load_plan(SectionKind::Main, false), LoadPlan::Read);
    h.section_cleared();
    assert!(!h.transport.has_take());
}

#[test]
fn regions_are_added_in_order_at_the_playhead() {
    let mut h = hub_with_main();
    for pos in [5000u64, 200, 3000] {
        h.update(HubEvent::SetPlayhead(pos));
        h.update(HubEvent::AddInRegionAtPlayhead(1000));
        h.update(HubEvent::AddOutRegionAtPlayhead(1000));
    }
    assert_eq!(begins(&main_take(&h).in_regions), vec![0, 2000, 4000]);
    assert_eq!(begins(&main_take(&h).out_regions), vec![200, 3000, 5000]);
    let first = main_take(&h).in_regions[0];
    assert_eq!((first.end_frames, first.sync_frames), (200, 200));
    let exit = main_take(&h).out_regions[1];
    assert_eq!((exit.end_frames, exit.sync_frames), (4000, 3000));
    h.update(HubEvent::ClearRegions);
    assert!(main_take(&h).in_regions.is_empty() && main_take(&h).out_regions.is_empty());
    let mut none = Hub::new();
    none.update(HubEvent::AddOutRegionAtPlayhead(5));
    assert_eq!(none.takes.count(), 0);
}

#[test]
fn exits_are_made_on_the_grid() {
    let grid = Some(BarGrid { first: 50, interval: 1000, bar: 500 });
    let r = generate_out_regions(grid, 0, 4050, 10_000, STYLE);
    assert_eq!(begins(&r), vec![50, 1050, 2050, 3050]);
    assert_eq!((r[0].end_frames, r[0].sync_frames, r[0].group), (550, 50, 3));
    assert_eq!(begins(&generate_out_regions(grid, 1051, 3051, 0, STYLE)), vec![2050]);
    assert_eq!(begins(&generate_out_regions(grid, 1051, 3051, 9000, STYLE)), vec![2050, 3050]);
    assert!(generate_out_regions(None, 0, 4050, 10_000, STYLE).is_empty());
    let never = Some(BarGrid { first: 0, interval: 0, bar: 500 });
    assert!(generate_out_regions(never, 0, 4050, 10_000, STYLE).is_empty());
}

#[test]
fn exits_of_a_range_replace_those_in_it() {
    let mut h = hub_with_main();
    let grid = Some(BarGrid { first: 0, interval: 2000, bar: 100 });
    h.update(HubEvent::GenerateExitRegions(grid, 0));
    assert!(main_take(&h).out_regions.is_empty());
    h.update(HubEvent::GenerateExitRegions(grid, 10_000));
    assert_eq!(begins(&main_take(&h).out_regions), vec![0, 2000, 4000, 6000, 8000]);
    let fine = Some(BarGrid { first: 0, interval: 1000, bar: 100 });
    h.update(HubEvent::GenerateExitRegionsInRange(fine, 10_000));
    assert_eq!(h.status.as_deref(), Some("drag a range on the ruler first"));
    h.update(HubEvent::SetSelection(1500, 4500));
    h.update(HubEvent::GenerateExitRegionsInRange(fine, 10_000));
    assert_eq!(begins(&main_take(&h).out_regions), vec![0, 2000, 3000, 4000, 6000, 8000]);
    h.update(HubEvent::ClearSelection);
    assert_eq!(h.controls.selection, None);
}

#[test]
fn sorting_is_stable() {
    let r = |begin: u64, group: u32| Region {
        group,
        ..Region::new_out(begin, begin + 1, num(0.0), num(0.0))
    };
    let v = vec![r(5, 1), r(3, 2), r(5, 3), r(1, 4), r(3, 5)];
    let s: Vec<(u64, u32)> = sort_by_begin(&v).iter().map(|x| (x.begin_frames, x.group)).collect();
    assert_eq!(s, vec![(1, 4), (3, 2), (3, 5), (5, 1), (5, 3)]);
    assert_eq!(sort_sources(&vec![4, 1, 4, 0]), vec![0, 1, 4, 4]);
}

#[test]
fn loop_windows_are_not_empty() {
    let mut h = hub_with_main();
    h.update(HubEvent::SetPlayhead(700));
    h.update(HubEvent::SetLoopBeginAtPlayhead);
    assert_eq!(main_take(&h).loop_range, Some((700, u64::MAX)));
    h.update(HubEvent::SetPlayhead(300));
    h.update(HubEvent::SetLoopEndAtPlayhead);
    assert_eq!(main_take(&h).loop_range, Some((299, 300)));
    h.update(HubEvent::SetPlayhead(900));
    h.update(HubEvent::SetLoopBeginAtPlayhead);
    assert_eq!(main_take(&h).loop_range, Some((900, 901)));
    h.update(HubEvent::ClearLoop);
    assert_eq!(main_take(&h).loop_range, None);
    let g = main_take(&h).geometry(SectionKind::Main, 10_000);
    assert_eq!(g.loop_range, Some((0, 10_000)));
    assert_eq!(main_take(&h).geometry(SectionKind::Intro, 10_000).loop_range, None);
}

#[test]
fn recording_again_keeps_the_regions() {
    let mut h = hub_with_main();
    h.update(HubEvent::SetPlayhead(700));
    h.update(HubEvent::AddOutRegionAtPlayhead(10));
    assert_eq!(h.take_recorded(), HubAction::Nothing);
    h.record_started("session-9", 480, num(90.0));
    assert_eq!(h.session_name, "session-9");
    h.recorder.as_mut().unwrap().last_armed = vec![3];
    assert_eq!(h.take_recorded(), HubAction::LoadSection(SectionKind::Main));
    let t = main_take(&h);
    assert_eq!((t.armed.clone(), t.start_pulses, t.bpm, t.time_sig), (vec![3], 480, num(90.0), 4));
    assert_eq!(begins(&t.out_regions), vec![700]);
    h.record_started("other", 0, num(0.0));
    assert_eq!(h.session_name, "session-9");
}

#[test]
fn sessions_come_back() {
    let mut h = hub_with_main();
    assert!(!h.can_save());
    assert_eq!(h.status.as_deref(), Some("type a session name first"));
    h.update(HubEvent::SetSessionName("demo".into()));
    assert!(h.can_save());
    h.takes.insert(SectionKind::Outro, take(7));
    h.update(HubEvent::SetLayerName(3, "Bass".into()));
    h.update(HubEvent::SetTakeOffset(num(-2.0)));
    h.update(HubEvent::ZoomIn(num(1.5)));
    let s = h.session_state(44_100);
    assert_eq!(s.sample_rate, 44_100);
    let mut other = Hub::new();
    other.engine_started(4, 4);
    assert_eq!(other.apply_session(s, "/r/demo"), HubAction::LoadSection(SectionKind::Main));
    assert_eq!(other.session_name, "demo");
    assert_eq!(other.layer_names, h.layer_names);
    assert_eq!(other.controls.zoom, num(1.5));
    assert_eq!(other.takes.count(), 2);
    assert_eq!(main_take(&other).user_offset_units, num(-2.0));
    assert_eq!(other.takes.get(SectionKind::Outro).unwrap().start_pulses, 7);
    assert_eq!(other.status.as_deref(), Some("loaded 2 section(s) \u{2192} /r/demo"));
    let c = other.recorder.as_ref().unwrap();
    assert_eq!(c.last_session.as_deref(), Some("/r/demo"));
    assert_eq!(c.last_armed, vec![0, 2]);
}

#[test]
fn stems_need_a_take_and_a_session() {
    let mut h = Hub::new();
    assert_eq!(h.export_check(), ExportCheck::NoTake);
    assert_eq!(h.export_check().message(), Some("no take loaded"));
    h.transport.set_take(5);
    assert_eq!(h.export_check(), ExportCheck::NoRecorder);
    assert_eq!(h.export_check().message(), None);
    h.engine_started(1, 1);
    assert_eq!(h.export_check().message(), Some("no recorded session yet"));
    h.recorder.as_mut().unwrap().last_session = Some("x".into());
    assert_eq!(h.export_check(), ExportCheck::Ready);
}

#[test]
fn sequences_need_a_section() {
    let mut h = hub_with_main();
    h.update(HubEvent::PlaybackPlay);
    h.update(HubEvent::SequenceStarted);
    assert!(!h.transport.is_playing());
    assert_eq!(h.status.as_deref(), Some("playing adaptive sequence"));
    h.update(HubEvent::SequenceUnavailable);
    assert_eq!(h.status.as_deref(), Some("record at least one section first"));
}

#[test]
fn bundles_are_named_by_code_and_variant() {
    let blank = AssetMeta::default();
    assert!(resolve_meta(&blank, "  ").is_none());
    let m = resolve_meta(&blank, " song ").unwrap();
    assert_eq!((m.production_code.as_str(), m.variant_name.as_str()), ("song", "song"));
    assert_eq!(bundle_folder(&m), "song - song_TT");
    let given = AssetMeta {
        production_code: " ANDD02 ".into(),
        variant_name: " Atlas".into(),
        description: "d".into(),
        ..Default::default()
    };
    let m = resolve_meta(&given, "song").unwrap();
    assert_eq!(bundle_folder(&m), "ANDD02 - Atlas_TT");
    assert_eq!((m.asset_name.as_str(), m.description.as_str()), ("Atlas", "d"));
    assert_eq!(bank_file("ANDD02"), "ANDD02.wlabank");
    assert_eq!(model_file("ANDD02"), "ANDD02.wlamodel");
}

#[test]
fn bundles_are_put_together_in_order() {
    let mut h = Hub::new();
    let sound = |armed: &[usize], buffers, len_frames| {
        Some(SectionSound { armed: armed.to_vec(), buffers, len_frames })
    };
    let mut all = BundleSound { intro: sound(&[4], 1, 2000), main: None, outro: None };
    let none = plan_bundle("B.wlabank", &h.takes, &all).unwrap_err();
    assert_eq!(none, "record at least one section before exporting");
    h.takes.insert(SectionKind::Outro, take(1));
    h.takes.insert(SectionKind::Main, take(2));
    h.takes.insert(SectionKind::Intro, take(3));
    all.outro = sound(&[1, 2], 1, 900);
    let sections = plan_bundle("B.wlabank", &h.takes, &all).unwrap();
    let kinds: Vec<SectionKind> = sections.iter().map(|s| s.kind).collect();
    assert_eq!(kinds, vec![SectionKind::Intro, SectionKind::Outro]);
    let clips = bundle_clips(&sections);
    let told: Vec<(SectionKind, &str, &str, Option<usize>, u64)> = clips
        .iter()
        .map(|c| (c.kind, c.id.as_str(), c.name.as_str(), c.buffer, c.frames))
        .collect();
    assert_eq!(
        told,
        vec![
            (SectionKind::Intro, "i1", "module_B.wlabank/i1", None, 2000),
            (SectionKind::Intro, "i1l5", "module_B.wlabank/i1l5", Some(0), 2000),
            (SectionKind::Outro, "o1", "module_B.wlabank/o1", None, 900),
            (SectionKind::Outro, "o1l2", "module_B.wlabank/o1l2", Some(0), 900),
        ]
    );
    // The patterns of the model play these clips.
    let specs = bundle_specs(&sections, "B.wlabank", &h.takes);
    let ids = [["a", "b"], ["c", "d"]].map(|x| x.map(String::from).to_vec()).to_vec();
    let doc = document("B", "m", "p", &specs, &ids, "now");
    let items = doc.array_field("content").unwrap();
    let played: Vec<&str> = items[2..]
        .iter()
        .map(|t| {
            let audio = t.get("data").unwrap().get("audioContent").unwrap();
            audio.text_field("clipName").unwrap()
        })
        .collect();
    let names: Vec<&str> = clips.iter().map(|c| c.name.as_str()).collect();
    assert_eq!(played, names);
    // A section without a take is not in the model.
    let fewer = SectionTakes { intro: None, ..h.takes };
    assert_eq!(bundle_specs(&sections, "B.wlabank", &fewer).len(), 1);
}

#[test]
fn layers_keep_their_sources() {
    let mix = pattern_id(SectionKind::Main);
    assert_eq!(mix, "m1");
    let plan = plan_section(SectionKind::Main, "B.wlabank", &vec![0, 6, 9], 2, 48_000);
    assert_eq!((plan.mix.as_str(), plan.len_frames), ("m1", 48_000));
    let clips: Vec<(&str, &str, Option<usize>)> =
        plan.clips.iter().map(|c| (c.id.as_str(), c.name.as_str(), c.buffer)).collect();
    assert_eq!(
        clips,
        vec![
            ("m1", "module_B.wlabank/m1", None),
            ("m1l1", "module_B.wlabank/m1l1", Some(0)),
            ("m1l7", "module_B.wlabank/m1l7", Some(1)),
        ]
    );
    assert_eq!(plan.layer_ids, vec!["m1l1", "m1l7"]);
    assert_eq!(clip_id(&clip_name("B.wlabank", "m1l7")), "m1l7");
    assert_eq!(clip_id("plain"), "plain");
    for source in [0usize, 6, 123] {
        assert_eq!(layer_source(&layer_id("m1", source)), source);
    }
    assert_eq!(layer_source("m1"), 0);
    assert_eq!(layer_source("m1l0"), 0);
    assert_eq!(layer_source("12"), 11);
    assert_eq!(layer_source("m1l99999999999999999999999"), 0);
}

#[test]
fn bundles_are_brought_in() {
    let section = ParsedSection {
        kind: SectionKind::Main,
        pattern_id: "m1".into(),
        len_frames: 8000,
        in_regions: vec![Region::new_in(0, 5, num(0.0), num(0.5))],
        out_regions: vec![],
        layer_ids: vec!["m1l4".into(), "m1l2".into(), "m1l3".into()],
    };
    let clips: Vec<String> = ["m1", "m1l4", "m1l2", "m1l4"].map(String::from).to_vec();
    let written = layers_to_write(&section.layer_ids, &clips);
    assert_eq!(written, vec![(3, 3), (2, 1)]);
    let t = imported_take(&section, &written, 5);
    assert_eq!(t.armed, vec![1, 3]);
    assert_eq!(t.loop_range, Some((0, 8000)));
    assert_eq!((t.time_sig, t.in_regions.len()), (5, 1));
    let mut h = hub_with_main();
    h.name_for_import("CODE");
    assert_eq!(h.session_name, "CODE");
    h.import_begun("/r/CODE");
    assert_eq!(h.takes.count(), 0);
    h.section_imported(&section, &written);
    assert_eq!(main_take(&h).armed, vec![1, 3]);
    assert_eq!(main_take(&h).loop_range, Some((0, 8000)));
    h.import_begun("/r/CODE");
    h.takes.insert(SectionKind::Outro, t);
    assert_eq!(h.import_done("/b"), HubAction::LoadSection(SectionKind::Outro));
    assert_eq!(h.status.as_deref(), Some("imported 1 section(s) from /b"));
    assert_eq!(h.controls.current_section, SectionKind::Outro);
    // Main goes before the sections that stand before it.
    h.takes.insert(SectionKind::Intro, take(96));
    assert_eq!(h.import_done("/b"), HubAction::LoadSection(SectionKind::Intro));
    h.takes.insert(SectionKind::Main, take(96));
    assert_eq!(h.import_done("/b"), HubAction::LoadSection(SectionKind::Main));
    assert_eq!(h.controls.current_section, SectionKind::Main);
}

#[test]
fn events_that_do_not_fit_are_told() {
    let mut h = hub_with_main();
    assert!(h.fits(&HubEvent::TimeSigNumChanged(3)));
    assert!(!h.fits(&HubEvent::TimeSigNumChanged(i32::MAX)));
    h.controls.region_group = 2;
    assert!(h.fits(&HubEvent::SetRegionGroup(i32::MIN)));
    assert!(!h.fits(&HubEvent::SetRegionGroup(i32::MAX - 1)));
    h.controls.region_group = u32::MAX;
    assert!(h.fits(&HubEvent::SetRegionGroup(i32::MAX)));
    assert!(!h.fits(&HubEvent::SetRegionGroup(i32::MIN)));
    assert!(!h.fits(&HubEvent::SetLayerName(usize::MAX, String::new())));
    assert!(h.fits(&HubEvent::SetLayerName(0, String::new())));
    h.transport.position = 5;
    assert!(h.fits(&HubEvent::AddOutRegionAtPlayhead(u64::MAX - 5)));
    assert!(!h.fits(&HubEvent::AddOutRegionAtPlayhead(u64::MAX - 4)));
    h.transport.position = u64::MAX;
    assert!(!h.fits(&HubEvent::SetLoopBeginAtPlayhead));
    assert!(h.fits(&HubEvent::SetLoopEndAtPlayhead));
    h.controls.current_section = SectionKind::Outro;
    assert!(h.fits(&HubEvent::SetLoopBeginAtPlayhead));
    assert!(h.fits(&HubEvent::AddOutRegionAtPlayhead(1)));
    let grid = Some(BarGrid { first: 0, interval: 10, bar: 20 });
    assert!(h.fits(&HubEvent::GenerateExitRegions(grid, u64::MAX - 20)));
    assert!(!h.fits(&HubEvent::GenerateExitRegions(grid, u64::MAX - 19)));
    assert!(h.fits(&HubEvent::GenerateExitRegions(None, u64::MAX)));
    assert!(h.fits(&HubEvent::GenerateExitRegionsInRange(grid, 0)));
    h.controls.selection = Some((0, u64::MAX));
    assert!(!h.fits(&HubEvent::GenerateExitRegionsInRange(grid, 0)));
    let step = |d| HubEvent::Mixer(MixerEvent::SetSlotFormula(0, d));
    assert!(h.fits(&step(-3)));
    assert!(!h.fits(&step(i32::MAX)));
    assert!(h.fits(&HubEvent::Mixer(MixerEvent::SetSlotFormula(8, i32::MAX))));
}

#[test]
fn takes_are_kept_by_role() {
    let mut t = SectionTakes::new();
    assert_eq!((t.count(), t.first(), t.preferred()), (0, SectionKind::Main, SectionKind::Main));
    t.insert(SectionKind::Outro, take(1));
    assert_eq!((t.first(), t.preferred()), (SectionKind::Outro, SectionKind::Outro));
    t.insert(SectionKind::Intro, take(2));
    t.insert(SectionKind::Main, take(3));
    assert_eq!((t.first(), t.preferred()), (SectionKind::Intro, SectionKind::Main));
    let back = SectionTakes::from_states(t.states());
    assert_eq!(back.count(), 3);
    assert_eq!(back.get(SectionKind::Main).unwrap().start_pulses, 3);
}

#[test]
fn labels_and_status_lines() {
    assert_eq!(rec_status(&None), "no engine");
    let mut c = RecorderControl::new(RecordState::new(3));
    c.state.set_armed(0, true);
    let mut r = Some(c);
    assert_eq!(rec_status(&r), "armed: 1");
    r.as_mut().unwrap().error = Some("oh".into());
    assert_eq!(rec_status(&r), "armed: 1 \u{2014} oh");
    r.as_mut().unwrap().recording = true;
    assert_eq!(rec_status(&r), "\u{25CF} REC");
    r.as_mut().unwrap().last_session = Some("/p".into());
    assert_eq!(rec_status(&r), "\u{25CF} REC \u{2192} /p");
    assert_eq!(export_status(&None, &None), "");
    assert_eq!(export_status(&None, &Some("e".into())), "export error: e");
    assert_eq!(export_status(&Some("d".into()), &Some("e".into())), "\u{2192} d");
    let names = vec![" Kick ".to_string(), "  ".to_string()];
    assert_eq!(source_label(&names, 0), "Kick");
    assert_eq!(source_label(&names, 1), "Src 2");
    assert_eq!(source_label(&names, 9), "Src 10");
    assert_eq!(section_tab(SectionKind::Intro, true), "\u{25CF} Intro");
    assert_eq!(section_tab(SectionKind::Outro, false), "Outro");
    assert_eq!(loop_text(Some((3, 40))), "loop 3\u{2013}40");
    assert_eq!(loop_text(None), "loop \u{2014}");
    assert_eq!(loaded_status(0, "/x"), "loaded (no takes) \u{2192} /x");
    assert_eq!(imported_status(2, "/x"), "imported 2 section(s) from /x");
    assert_eq!(midi_status_line(&None, "", 4), "MIDI: unavailable");
    let mut g = GridState::new();
    assert!(midi_status_line(&Some(g), "", 4).starts_with("MIDI: waiting"));
    g.connected = true;
    g.playing = true;
    g.pulses = 24 * 5;
    assert_eq!(
        midi_status_line(&Some(g), "120.0 BPM", 4),
        "MIDI \u{25B6}  120.0 BPM   bar 2 : beat 2   meter 4/4"
    );
}

#[test]
fn folders_of_nameless_sessions() {
    assert_eq!(folder_name("  "), "untitled");
    assert_eq!(folder_name(" my song\t"), "my song");
}

#[test]
fn lists_are_in_alphabetical_order() {
    let found = || -> Vec<String> {
        ["b", ".hidden", "a10", "B", "a9", "Zürich", "b", "a"].map(String::from).to_vec()
    };
    assert_eq!(list_sessions(found()), vec!["B", "Zürich", "a", "a10", "a9", "b", "b"]);
    let files = ["two.txt", "one.txt", ".txt", "notes.md"].map(String::from).to_vec();
    assert_eq!(list_templates(files), vec!["one.txt", "two.txt"]);
    assert!(list_sessions(vec![]).is_empty());
    let mut sorted = found();
    sorted.retain(|n| !n.starts_with('.'));
    sorted.sort_unstable();
    assert_eq!(list_sessions(found()), sorted);
}

#[test]
fn saved_takes_come_back() {
    let mut t = take(0);
    t.armed = vec![4, 1];
    t.in_regions = vec![Region::new_in(0, 500, num(1.0), num(0.5))];
    t.out_regions = vec![Region::new_out(700, 900, num(0.25), num(1.0))];
    let bank = bank_file("CODE");
    let plan = plan_section(SectionKind::Main, &bank, &t.armed, 2, 1000);
    let text = gatherer_hub::asset::wlamodel::to_json(
        "CODE",
        "module",
        "page",
        &[section_spec(&plan, &bank, &t)],
        48_000,
    );
    let (module, page, sections) = gatherer_hub::asset::wlamodel::parse(&text).unwrap();
    assert_eq!((module.as_str(), page.as_str(), sections.len()), ("module", "page", 1));
    let clips: Vec<String> = plan.clips.iter().map(|c| clip_id(&c.name)).collect();
    let written = layers_to_write(&sections[0].layer_ids, &clips);
    assert_eq!(written, vec![(1, 4), (2, 1)]);
    let back = imported_take(&sections[0], &written, 3);
    assert_eq!(back.armed, vec![1, 4]);
    assert_eq!(back.in_regions, t.in_regions);
    assert_eq!(back.out_regions, t.out_regions);
    assert_eq!((back.loop_range, back.time_sig), (Some((0, 1000)), 3));
}
