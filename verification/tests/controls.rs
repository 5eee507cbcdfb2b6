use gatherer_hub::adaptive::{
    source_preset, target_preset, AdaptiveMixer, Mode, Mood, SlotField, SlotParams,
};
use gatherer_hub::audio::{
    best_f32_input_config, block_frames, left_sample, num_sources, InputConfig,
};
use gatherer_hub::export::{
    layer_filename, numbered_source, plan_stems, sanitize, source_file, ExportResult,
};
use gatherer_hub::measurement::chunk_samples;
use gatherer_hub::midi::{bar_beat_for, bar_beat_in, on_message, ParserState};
use gatherer_hub::number::Real32;
use gatherer_hub::params::{any_soloed, clamp_gain_db, is_heard, SourceMix};
use gatherer_hub::playback::{bucket_count, take_frames, Playback};
use gatherer_hub::recording::{
    recording_dir, recording_folders, resolve_session_name, session_folders, sources_to_open,
    PreviewSource, RecordState, RecorderControl, RecorderStep, RecordingPreview,
};

fn num(x: f32) -> Real32 {
    Real32 { bits: x.to_bits() }
}

// MIDI.

#[test]
fn bar_beat_arithmetic_4_4() {
    assert_eq!(bar_beat_for(0), (1, 1));
    assert_eq!(bar_beat_for(23), (1, 1));
    assert_eq!(bar_beat_for(24), (1, 2));
    assert_eq!(bar_beat_for(72), (1, 4));
    assert_eq!(bar_beat_for(96), (2, 1));
    assert_eq!(bar_beat_for(96 * 3), (4, 1));
}

#[test]
fn bars_of_other_lengths() {
    assert_eq!(bar_beat_in(24 * 7, 3), (3, 2));
    assert_eq!(bar_beat_in(24 * 7, 7), (2, 1));
}

#[test]
fn spp_sets_pulses() {
    let mut parser = ParserState::new();
    on_message(0, &[0xF2, 16, 0], &mut parser);
    assert_eq!(parser.grid.pulses, 96);
    assert_eq!(parser.grid.bar_beat(), (2, 1));
}

#[test]
fn start_resets_position_and_starts_transport() {
    let mut parser = ParserState::new();
    on_message(0, &[0xF2, 16, 0], &mut parser);
    on_message(0, &[0xFA], &mut parser);
    assert_eq!(parser.grid.pulses, 0);
    assert!(parser.grid.playing);
    on_message(0, &[0xFC], &mut parser);
    assert!(!parser.grid.playing);
}

#[test]
fn clock_pulses_fill_the_window() {
    let mut p = ParserState::new();
    assert!(!on_message(1_000, &[0xF8], &mut p));
    for i in 1..=30u64 {
        assert!(on_message(1_000 + i * 20_000, &[0xF8], &mut p));
    }
    assert_eq!(p.grid.pulses, 31);
    assert_eq!(p.recent(), vec![20_000; 24]);
    // A pulse at the same time or after a second or more gives no interval.
    let last = 1_000 + 30 * 20_000;
    assert!(!on_message(last, &[0xF8], &mut p));
    assert!(!on_message(last + 1_000_000, &[0xF8], &mut p));
    assert!(on_message(last + 1_999_999, &[0xF8], &mut p));
    on_message(0, &[0xFB], &mut p);
    assert!(p.grid.playing);
    assert!(p.recent().is_empty());
    assert_eq!(p.grid.pulses, 34);
    assert!(!on_message(last, &[0xF8], &mut p));
}

#[test]
fn a_continued_clock_starts_a_new_window() {
    let mut p = ParserState::new();
    on_message(0, &[0xF8], &mut p);
    on_message(10_000, &[0xF8], &mut p);
    assert_eq!(p.recent(), vec![10_000]);
    on_message(20_000, &[0xFB], &mut p);
    on_message(30_000, &[0xF8], &mut p);
    on_message(55_000, &[0xF8], &mut p);
    assert_eq!(p.recent(), vec![25_000]);
}

#[test]
fn the_clock_may_wrap_around() {
    let mut p = ParserState::new();
    on_message(u64::MAX - 99, &[0xF8], &mut p);
    assert!(on_message(900, &[0xF8], &mut p));
    assert_eq!(p.recent(), vec![1000]);
}

#[test]
fn only_clock_pulses_connect() {
    let mut p = ParserState::new();
    on_message(0, &[], &mut p);
    assert!(!p.grid.connected);
    on_message(0, &[0x90, 60, 100], &mut p);
    on_message(0, &[0xFA], &mut p);
    assert!(!p.grid.connected);
    on_message(0, &[0xF8], &mut p);
    assert!(p.grid.connected);
    on_message(0, &[0xFC], &mut p);
    assert!(p.grid.connected);
    p = ParserState::new();
    on_message(0, &[0xF2, 16], &mut p);
    assert_eq!(p.grid.pulses, 0);
    on_message(0, &[0xF2, 0xFF, 0xFF], &mut p);
    assert_eq!(p.grid.pulses, 16383 * 6);
}

// Export.

#[test]
fn sanitize_drops_unsafe_chars() {
    assert_eq!(sanitize("Vocals"), "Vocals");
    assert_eq!(sanitize("Vocals/Lead"), "Vocals_Lead");
    assert_eq!(sanitize("kick: 1"), "kick_ 1");
    assert_eq!(sanitize("a*b?c"), "a_b_c");
}

#[test]
fn letters_of_other_scripts_are_kept() {
    assert_eq!(sanitize("Flöte-Ж_3.wav"), "Flöte-Ж_3.wav");
    assert_eq!(sanitize("a\u{2192}b\u{1F3B5}"), "a_b_");
    let fit = sanitize("x/y:z");
    assert_eq!(sanitize(&fit), fit);
}

#[test]
fn layer_filename_falls_back_when_blank() {
    assert_eq!(layer_filename(&[], 3), "source-04");
    assert_eq!(layer_filename(&["   ".to_string()], 0), "source-01");
    assert_eq!(layer_filename(&["Bass".to_string()], 0), "Bass");
}

#[test]
fn stems_are_planned_for_loaded_buffers() {
    let names = vec!["Vocals".to_string(), " ".to_string(), "a/b".to_string()];
    let plan = plan_stems(&[0, 2, 11], 2, &names);
    assert_eq!(plan.len(), 2);
    assert_eq!((plan[0].buffer, plan[0].source, plan[0].file.as_str()), (0, 0, "Vocals.wav"));
    assert_eq!((plan[1].buffer, plan[1].source, plan[1].file.as_str()), (1, 2, "a_b.wav"));
    assert_eq!(plan_stems(&[11], 5, &names)[0].file, "source-12.wav");
    let done = ExportResult { dir: "d".into(), source_count: plan.len() };
    assert_eq!(done.source_count, 2);
}

#[test]
fn sources_are_numbered_from_one() {
    assert_eq!(numbered_source(0), "source-01");
    assert_eq!(numbered_source(99), "source-100");
    assert_eq!(source_file(8), "source-09.wav");
}

// Playback.

#[test]
fn transport_play_pause_stop() {
    let mut pb = Playback::new();
    assert!(!pb.has_take());
    pb.play();
    assert!(!pb.is_playing());

    pb.set_take(100);
    assert!(pb.has_take());
    pb.play();
    assert!(pb.is_playing());
    pb.set_position(50);
    pb.pause();
    assert!(!pb.is_playing());
    assert_eq!(pb.position(), 50);
    pb.stop();
    assert_eq!(pb.position(), 0);

    pb.set_position(100);
    pb.play();
    assert_eq!(pb.position(), 0);
}

#[test]
fn takes_are_as_long_as_their_longest_source() {
    assert_eq!(take_frames(&[]), 0);
    assert_eq!(take_frames(&[200, 401, 7]), 200);
    assert_eq!(bucket_count(0), 1);
    assert_eq!(bucket_count(7), 7);
    assert_eq!(bucket_count(2400), 1200);
    let mut pb = Playback::new();
    pb.set_take(10);
    assert_eq!(pb.len_frames(), 10);
    pb.clear();
    assert!(!pb.has_take());
}

// Mix controls.

fn unity() -> SourceMix {
    SourceMix { gain: num(1.0), muted: false, soloed: false, inverted: false }
}

#[test]
fn any_soloed_reflects_sources() {
    let mut mixes = [unity(); 3];
    assert!(!any_soloed(&mixes));
    mixes[1].soloed = true;
    assert!(any_soloed(&mixes));
}

#[test]
fn mute_and_solo_gate_sources() {
    let muted = [SourceMix { muted: true, ..unity() }, unity()];
    assert!(!is_heard(&muted, false, 0));
    assert!(is_heard(&muted, false, 1));
    let soloed = [unity(), SourceMix { soloed: true, ..unity() }, unity()];
    assert!(!is_heard(&soloed, true, 0));
    assert!(is_heard(&soloed, true, 1));
    assert!(!is_heard(&soloed, true, 2));
}

#[test]
fn gains_are_held_in_their_bounds() {
    assert_eq!(clamp_gain_db(num(999.0)), num(12.0));
    assert_eq!(clamp_gain_db(num(-999.0)), num(-60.0));
    assert_eq!(clamp_gain_db(num(-6.5)), num(-6.5));
}

#[test]
fn numbers_compare_as_floats_do() {
    let values = [-2.5f32, -0.0, 0.0, 1e-30, 0.5, 1.0, 3.0e8, f32::INFINITY, f32::NEG_INFINITY];
    for a in values {
        for b in values {
            assert_eq!(num(a).lt(num(b)), a < b, "{a} < {b}");
            assert_eq!(num(a).le(num(b)), a <= b, "{a} <= {b}");
            assert_eq!(f32::from_bits(num(a).max(num(b)).bits), a.max(b));
            assert_eq!(f32::from_bits(num(a).min(num(b)).bits), a.min(b));
        }
        assert_eq!(num(a).abs(), num(a.abs()));
        assert_eq!(f32::from_bits(num(a).clamp(num(-1.0), num(1.0)).bits), a.clamp(-1.0, 1.0));
    }
    assert!(num(f32::NAN).is_nan());
    assert!(!num(f32::NAN).lt(num(1.0)) && !num(f32::NAN).le(num(1.0)));
    assert_eq!(num(f32::NAN).max(num(1.0)), num(1.0));
    assert_eq!(num(1.0).min(num(f32::NAN)), num(1.0));
}

// Capture.

#[test]
fn the_widest_floating_configuration_wins() {
    let c = |float: bool, channels: u16, min_rate: u32, max_rate: u32| InputConfig {
        float,
        channels,
        min_rate,
        max_rate,
    };
    let all = [
        c(true, 2, 44_100, 96_000),
        c(false, 64, 44_100, 96_000),
        c(true, 8, 44_100, 48_000),
        c(true, 8, 8_000, 192_000),
        c(true, 32, 96_000, 192_000),
    ];
    assert_eq!(best_f32_input_config(&all, 48_000), Some(3));
    assert_eq!(best_f32_input_config(&all, 96_000), Some(4));
    assert_eq!(best_f32_input_config(&all, 4_000), None);
    assert_eq!(best_f32_input_config(&[], 48_000), None);
}

#[test]
fn sources_are_pairs_of_channels() {
    assert_eq!(num_sources(7, 100), 3);
    assert_eq!(num_sources(128, 100), 32);
    assert_eq!(num_sources(8, 2), 2);
    assert_eq!(block_frames(1000, 0), 0);
    assert_eq!(block_frames(1001, 4), 250);
    assert_eq!(block_frames(100_000, 2), 8192);
    assert_eq!(left_sample(1000, 4, 3, 1), 14);
    assert_eq!(chunk_samples(48_000, 2), 9600);
    assert_eq!(chunk_samples(8_000, 2), 2048);
}

// Recording.

#[test]
fn sources_are_armed_one_by_one() {
    let mut s = RecordState::new(3);
    assert_eq!((s.num_sources(), s.armed_count(), s.is_active()), (3, 0, false));
    s.set_armed(2, true);
    s.set_armed(0, true);
    s.set_armed(7, true);
    assert!(s.is_armed(0) && !s.is_armed(1) && s.is_armed(2) && !s.is_armed(7));
    assert_eq!(s.armed_count(), 2);
    assert_eq!(s.armed_sources(), vec![0, 2]);
    s.set_armed(0, false);
    assert_eq!(s.armed_sources(), vec![2]);
}

#[test]
fn the_record_button_starts_and_stops() {
    let mut c = RecorderControl::new(RecordState::new(2));
    assert!(matches!(c.toggle("", "main", 5), RecorderStep::Refused));
    assert_eq!(c.error.as_deref(), Some("Arm at least one source (R) before recording"));
    c.state.set_armed(1, true);
    match c.toggle("  my song ", "main", 5) {
        RecorderStep::Create { session_name, folders, armed } => {
            assert_eq!(session_name, "my song");
            assert_eq!(folders, vec!["recording", "main"]);
            assert_eq!(armed, vec![1]);
            c.created(armed);
            c.started("/root/my song".into(), session_name);
        }
        other => panic!("{other:?}"),
    }
    assert!(c.recording && c.state.is_active());
    assert_eq!(c.error, None);
    assert_eq!(c.last_armed, vec![1]);
    assert_eq!(c.last_session_name.as_deref(), Some("my song"));
    assert!(matches!(c.toggle("", "", 6), RecorderStep::Stop));
    assert!(!c.recording && !c.state.is_active());
    c.not_created("no room".into());
    assert_eq!(c.error.as_deref(), Some("no room"));
    c.created(vec![1]);
    c.writer_gone();
    assert_eq!(c.error.as_deref(), Some("recorder thread is gone"));
    assert!(!c.state.is_active());
}

#[test]
fn sessions_without_a_name_are_named_by_the_time() {
    assert_eq!(resolve_session_name("   ", 1234), "session-1234");
    assert_eq!(resolve_session_name(" a b ", 1234), "a b");
    assert_eq!(session_folders("x"), vec!["Music", "Gatherer", "x"]);
}

#[test]
fn takes_are_looked_for_where_they_were_recorded() {
    assert_eq!(recording_folders(""), vec!["recording"]);
    assert_eq!(recording_folders("intro"), vec!["recording", "intro"]);
    assert_eq!(recording_dir("", true, true), vec!["recording"]);
    assert_eq!(recording_dir("main", true, true), vec!["recording", "main"]);
    assert_eq!(recording_dir("main", false, true), vec!["recording"]);
    assert_eq!(recording_dir("main", false, false), vec!["recording", "main"]);
    assert_eq!(sources_to_open(&[0, 5, 2], 3), vec![0, 2]);
}

#[test]
fn full_buckets_join_the_envelope() {
    let mut p = PreviewSource::new(3);
    for i in 0..4799 {
        p.feed(num(if i == 100 { -0.75 } else { 0.5 }));
    }
    assert!(p.envelope.is_empty());
    p.feed(num(0.25));
    assert_eq!(p.envelope, vec![num(0.75)]);
    for _ in 0..4800 {
        p.feed(num(-0.125));
    }
    assert_eq!(p.envelope, vec![num(0.75), num(0.125)]);
}

#[test]
fn previews_are_kept_per_source() {
    let mut r = RecordingPreview::new(&[1, 4], 48_000);
    for _ in 0..4800 {
        r.feed(4, num(0.5));
        r.feed(2, num(0.9));
    }
    assert_eq!(r.snapshot(4), vec![num(0.5)]);
    assert!(r.snapshot(1).is_empty());
    assert!(r.snapshot(2).is_empty());
    assert_eq!(r.find(4), Some(1));
    assert_eq!(r.find(2), None);
}

// The adaptive mixer.

#[test]
fn fields_are_held_in_their_bounds() {
    let mut p = SlotParams::default();
    p.set_field(SlotField::Maximum, num(1.5));
    p.set_field(SlotField::Steepness, num(1.5));
    p.set_field(SlotField::Minimum, num(-1.0));
    p.set_field(SlotField::Deviation, num(0.25));
    p.set_field(SlotField::Original, num(f32::NAN));
    assert_eq!(p.maximum, num(1.5));
    assert_eq!(p.steepness, num(1.0));
    assert_eq!(p.minimum, num(0.0));
    assert_eq!(p.deviation, num(0.25));
    assert_eq!(p.original_level, num(1.0));
}

#[test]
fn curves_are_clipped_to_the_slot() {
    let p = SlotParams { minimum: num(0.3), ..SlotParams::default() };
    assert_eq!(p.clip(num(0.0)), num(0.3));
    assert_eq!(p.clip(num(2.0)), num(1.0));
    assert_eq!(p.clip(num(0.5)), num(0.5));
}

#[test]
fn presets_and_labels() {
    assert_eq!(source_preset(0).unwrap().0, "F1");
    assert_eq!(source_preset(8).unwrap().1.formula, 9);
    assert_eq!(source_preset(1).unwrap().1.steepness, num(0.57));
    assert!(source_preset(9).is_none());
    assert_eq!(target_preset(Mode::Combat).steepness, num(0.1));
    assert_eq!(Mood::Dark.label(), "Dark");
    assert_eq!(Mode::Globals.label(), "Globals");
    assert_eq!((Mood::Bright.index(), Mode::Combat.index()), (2, 3));
    let mut m = AdaptiveMixer::default();
    assert!(!m.is_enabled());
    m.set_enabled(true);
    assert!(m.is_enabled());
}
