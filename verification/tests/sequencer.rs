use gatherer_hub::navigator::model::{FadeLevel, Region, SectionKind};
use gatherer_hub::number::Real32;
use gatherer_hub::sequencer::{
    advance_head, in_gain, out_gain, AdaptiveSection, Gain, Mix, Sequencer, Voice,
};

fn num(x: f32) -> Real32 {
    Real32 { bits: x.to_bits() }
}

/// The frames over which a region fades, one at least.
fn fade_frames(r: &Region) -> u64 {
    (r.span() as f32 * f32::from_bits(r.fade_pct.bits)).max(1.0) as u64
}

/// A level with a straight slope.
fn linear(level: FadeLevel) -> f32 {
    match level {
        FadeLevel::Silent => 0.0,
        FadeLevel::Full => 1.0,
        FadeLevel::Rising { offset, length } => offset as f32 / length as f32,
        FadeLevel::Falling { offset, length } => 1.0 - offset as f32 / length as f32,
    }
}

fn gain(v: Voice) -> f32 {
    match v.gain {
        Gain::Unity => 1.0,
        Gain::FadeIn { region } => linear(in_gain(&region, fade_frames(&region), v.frame)),
        Gain::FadeOut { region } => linear(out_gain(&region, fade_frames(&region), v.frame)),
    }
}

/// What sounds after `n` frames more, without a faded voice.
fn advance(seq: &mut Sequencer, n: u64) -> Mix {
    assert!(seq.can_advance(n));
    let mix = seq.advance(n);
    let sounds = match mix.a {
        Some(v) => gain(v) > 0.0,
        None => false,
    };
    mix.settle(sounds)
}

fn intro() -> AdaptiveSection {
    AdaptiveSection {
        kind: SectionKind::Intro,
        length: 1000,
        loop_range: None,
        in_regions: vec![Region::new_in(0, 0, num(0.0), num(0.5))],
        out_regions: vec![Region::new_out(800, 900, num(1.0), num(0.5))],
    }
}

fn main_section() -> AdaptiveSection {
    AdaptiveSection {
        kind: SectionKind::Main,
        length: 4000,
        loop_range: Some((0, 4000)),
        in_regions: vec![Region::new_in(0, 100, num(1.0), num(0.5))],
        out_regions: vec![
            Region::new_out(1000, 1100, num(1.0), num(0.5)),
            Region::new_out(2000, 2100, num(1.0), num(0.5)),
            Region::new_out(3000, 3100, num(1.0), num(0.5)),
        ],
    }
}

fn outro() -> AdaptiveSection {
    AdaptiveSection {
        kind: SectionKind::Outro,
        length: 1000,
        loop_range: None,
        in_regions: vec![Region::new_in(0, 100, num(1.0), num(0.5))],
        out_regions: vec![Region::new_out(900, 1000, num(0.0), num(0.5))],
    }
}

#[test]
fn intro_to_main_sync_alignment() {
    let mut seq = Sequencer::new(vec![intro(), main_section()]);
    seq.start();
    let mut last = Mix::default();
    for _ in 0..2000 {
        last = advance(&mut seq, 1);
        if let Some(a) = last.a {
            if a.section == 0 && a.frame == 800 {
                break;
            }
        }
    }
    let a = last.a.expect("outgoing voice present at sync");
    let b = last.b.expect("incoming voice present at sync");
    assert_eq!(a.section, 0, "A is the intro");
    assert_eq!(a.frame, 800, "A at its out sync");
    assert!((gain(a) - 1.0).abs() < 1e-3, "A at full gain at sync");
    assert_eq!(b.section, 1, "B is main");
    assert_eq!(b.frame, 100, "B at its in sync");
    assert!((gain(b) - 1.0).abs() < 1e-3, "B at full gain at sync");
}

#[test]
fn main_loops_indefinitely() {
    let mut seq = Sequencer::new(vec![main_section()]);
    seq.start();
    let loop_end = 4000u64;
    for _ in 0..(loop_end / 100 * 3 + 5) {
        let mix = advance(&mut seq, 100);
        let a = mix.a.expect("main always sounding");
        assert_eq!(a.section, 0);
        assert!(a.frame < loop_end, "head stays inside the loop");
        assert!(mix.b.is_none(), "no cross without a trigger");
    }
    assert!(!seq.is_exit_pending());
    assert_eq!(seq.current_section(), Some(0));
}

#[test]
fn deferred_exit_picks_next_outregion() {
    let mut seq = Sequencer::new(vec![main_section(), outro()]);
    seq.start();
    advance(&mut seq, 1500);
    seq.trigger_exit();
    assert!(seq.is_exit_pending(), "exit armed");
    let mut synced = None;
    for _ in 0..2000 {
        let mix = advance(&mut seq, 1);
        if let (Some(a), Some(_b)) = (mix.a, mix.b) {
            if a.section == 0 && a.frame == 2000 {
                synced = Some(mix);
                break;
            }
        }
    }
    let mix = synced.expect("reached the 2000 sync");
    assert_eq!(mix.a.unwrap().frame, 2000, "exit used the 2000 window");
    assert_eq!(mix.b.unwrap().section, 1, "crossing into outro");
    assert!((gain(mix.b.unwrap()) - 1.0).abs() < 1e-3);
}

#[test]
fn fade_pct_zero_skips_envelope() {
    let out0 = Region::new_out(1000, 1100, num(0.0), num(0.5));
    let o = |local: u64| linear(out_gain(&out0, fade_frames(&out0), local));
    assert_eq!(o(1000), 1.0);
    assert_eq!(o(1050), 1.0, "no ramp mid-region");
    assert_eq!(o(1099), 1.0);

    let in0 = Region::new_in(0, 100, num(0.0), num(0.5));
    let i = |local: u64| linear(in_gain(&in0, fade_frames(&in0), local));
    assert_eq!(i(0), 1.0, "full from the start");
    assert_eq!(i(50), 1.0);
    assert_eq!(i(100), 1.0);

    let in1 = Region::new_in(0, 100, num(1.0), num(0.5));
    let r = |local: u64| linear(in_gain(&in1, fade_frames(&in1), local));
    assert!(r(0) < 0.1, "ramps from ~0");
    assert!((r(100) - 1.0).abs() < 1e-3, "reaches 1 at sync");
    assert!((r(50) - 0.5).abs() < 0.05, "linear midpoint");
}

#[test]
fn full_sequence_intro_main_outro_to_idle() {
    let mut seq = Sequencer::new(vec![intro(), main_section(), outro()]);
    seq.start();
    for _ in 0..50 {
        advance(&mut seq, 100);
    }
    assert_eq!(seq.current_section(), Some(1), "settled into main after intro cross");
    seq.trigger_exit();
    let mut ended = false;
    for _ in 0..200 {
        let mix = advance(&mut seq, 100);
        if mix.a.is_none() && mix.b.is_none() {
            ended = true;
            break;
        }
    }
    assert!(ended, "outro played out and the sequencer went idle");
    assert!(!seq.is_playing());
}

#[test]
fn exit_without_an_outro_ends_in_silence() {
    let mut seq = Sequencer::new(vec![main_section()]);
    seq.start();
    advance(&mut seq, 1500);
    seq.trigger_exit();
    assert!(seq.is_exit_pending());
    let mut ended = false;
    for _ in 0..3000 {
        let mix = advance(&mut seq, 1);
        if mix.a.is_none() && mix.b.is_none() {
            ended = true;
            break;
        }
    }
    assert!(ended);
    assert!(!seq.is_playing());
}

#[test]
fn a_second_exit_request_changes_nothing() {
    let mut once = Sequencer::new(vec![main_section(), outro()]);
    let mut twice = Sequencer::new(vec![main_section(), outro()]);
    for s in [&mut once, &mut twice] {
        s.start();
        s.advance(500);
        s.trigger_exit();
    }
    twice.trigger_exit();
    for _ in 0..2000 {
        assert_eq!(advance(&mut once, 1), advance(&mut twice, 1));
    }
}

#[test]
fn stopped_and_empty_sequencers_are_silent() {
    let mut none = Sequencer::new(vec![]);
    none.start();
    assert!(!none.is_playing());
    assert_eq!(none.advance(100), Mix::default());
    let mut seq = Sequencer::new(vec![main_section()]);
    seq.start();
    assert!(seq.is_playing());
    seq.stop();
    assert!(!seq.is_playing());
    assert_eq!(seq.current_section(), None);
    assert_eq!(seq.advance(100), Mix::default());
}

#[test]
fn heads_wrap_in_the_loop_window() {
    assert_eq!(advance_head(10, 5, None), 15);
    assert_eq!(advance_head(90, 20, Some((50, 100))), 60);
    assert_eq!(advance_head(90, 120, Some((50, 100))), 60);
    assert_eq!(advance_head(90, 20, Some((100, 50))), 110);
    // In two blocks a head comes where it comes in one.
    for window in [None, Some((50, 100)), Some((0, 7)), Some((100, 50))] {
        for first in 0..130 {
            let halfway = advance_head(20, first, window);
            assert_eq!(advance_head(halfway, 130 - first, window), advance_head(20, 130, window));
        }
    }
}

/// A cross from an out-region with the sync point `out_sync` into an in-region
/// with the sync point `in_sync`.
fn crossing(out: (u64, u64, u64), entry: (u64, u64, u64)) -> Sequencer {
    let left = AdaptiveSection {
        out_regions: vec![Region {
            sync_frames: out.2,
            ..Region::new_out(out.0, out.1, num(0.0), num(0.5))
        }],
        ..intro()
    };
    let entered = AdaptiveSection {
        in_regions: vec![Region {
            sync_frames: entry.2,
            ..Region::new_in(entry.0, entry.1, num(1.0), num(0.5))
        }],
        ..main_section()
    };
    let mut seq = Sequencer::new(vec![left, entered]);
    seq.start();
    seq
}

#[test]
fn sync_points_inside_the_regions_meet() {
    let mut seq = crossing((800, 900, 850), (0, 100, 60));
    let mix = advance(&mut seq, 850);
    assert_eq!(mix.a.unwrap().frame, 850);
    let b = mix.b.unwrap();
    assert_eq!(b.frame, 60);
    assert_eq!(gain(b), 1.0);
    // The cross begins as early as the entered section needs.
    let mut seq = crossing((800, 900, 850), (0, 100, 60));
    assert!(seq.advance(789).b.is_none());
    let mix = seq.advance(1);
    assert_eq!((mix.a.unwrap().frame, mix.b.unwrap().frame), (790, 0));
    let mix = seq.advance(60);
    assert_eq!((mix.a.unwrap().frame, mix.b.unwrap().frame), (850, 60));
    // When the exit is over, the entered section plays on from where it is.
    let mix = seq.advance(50);
    assert_eq!((mix.a.unwrap().frame, mix.b.unwrap().frame), (900, 110));
    let mix = seq.advance(1);
    assert_eq!((mix.a.unwrap().section, mix.a.unwrap().frame), (1, 111));
    assert!(mix.b.is_none());
}

#[test]
fn sync_points_meet_without_room_before_them() {
    // The in-region is longer up to its sync point than the left section is.
    let mut seq = crossing((10, 40, 30), (0, 100, 60));
    let mix = seq.advance(10);
    assert_eq!((mix.a.unwrap().frame, mix.b.unwrap().frame), (10, 40));
    let mix = seq.advance(20);
    assert_eq!((mix.a.unwrap().frame, mix.b.unwrap().frame), (30, 60));
}

#[test]
fn a_sync_point_at_the_very_start_is_at_full_level() {
    let r = Region::new_in(0, 0, num(1.0), num(0.5));
    assert_eq!(in_gain(&r, 1, 0), FadeLevel::Full);
    let r = Region { sync_frames: 0, ..Region::new_in(0, 100, num(1.0), num(0.5)) };
    assert_eq!(in_gain(&r, 100, 0), FadeLevel::Full);
}

#[test]
fn a_section_that_does_not_loop_ends() {
    let mut seq = Sequencer::new(vec![AdaptiveSection { loop_range: None, ..main_section() }]);
    seq.start();
    assert!(advance(&mut seq, 3999).a.is_some());
    let last = advance(&mut seq, 100);
    assert!(last.a.is_none());
    assert!(!seq.is_playing());
}

#[test]
fn regions_ramp_from_their_begin_and_to_their_end() {
    let i = Region::new_in(100, 300, num(0.5), num(0.5));
    assert_eq!(i.span(), 200);
    assert_eq!(i.fade_span_in(100), (100, 200));
    assert_eq!(i.gain_as_in(100, 100), FadeLevel::Silent);
    assert_eq!(i.gain_as_in(100, 150), FadeLevel::Rising { offset: 50, length: 100 });
    assert_eq!(i.gain_as_in(100, 300), FadeLevel::Full);
    let o = Region::new_out(100, 300, num(0.5), num(0.5));
    assert_eq!(o.fade_span_out(100), (200, 300));
    assert_eq!(o.gain_as_out(100, 150), FadeLevel::Full);
    assert_eq!(o.gain_as_out(100, 250), FadeLevel::Falling { offset: 50, length: 100 });
    assert_eq!(o.gain_as_out(100, 300), FadeLevel::Silent);
}
