use gatherer_hub::navigator::model::{AssetMeta, Project, Region, SectionKind};
use gatherer_hub::number::Real32;
use gatherer_hub::session::{migrate_into_project, session_file, SessionState};
use gatherer_hub::take::TakeState;

fn num(x: f32) -> Real32 {
    Real32 { bits: x.to_bits() }
}

fn demo_take() -> TakeState {
    TakeState {
        armed: vec![0, 1],
        start_pulses: 1234,
        bpm: num(120.0),
        time_sig_num: 5,
        take_user_offset_units: num(-0.25),
    }
}

fn old_session() -> SessionState {
    SessionState {
        session_name: "old".into(),
        sample_rate: 48_000,
        time_sig_num: 4,
        target_lufs: num(-14.0),
        zoom: num(1.0),
        snap_to_grid: true,
        layer_names: vec!["Kick".into()],
        project: Project::default(),
        take: None,
        asset_meta: None,
    }
}

#[test]
fn single_take_is_the_primary_one() {
    let s = SessionState::with_single_take(
        "demo".into(),
        48_000,
        5,
        num(-14.0),
        num(1.5),
        false,
        vec!["Kick".into(), "Bass".into()],
        Some(demo_take()),
    );
    assert_eq!(s.session_name, "demo");
    assert_eq!(s.layer_names, vec!["Kick", "Bass"]);
    assert!(s.take.is_none());
    let t = s.primary_take().expect("take in project");
    assert_eq!(t.armed, vec![0, 1]);
    assert_eq!(t.start_pulses, 1234);
    assert_eq!(t.take_user_offset_units, num(-0.25));
}

#[test]
fn without_a_take_the_project_is_fresh() {
    let s = SessionState::with_single_take(
        "fresh".into(),
        48_000,
        4,
        num(-23.0),
        num(1.0),
        true,
        vec![],
        None,
    );
    assert!(s.primary_take().is_none());
    assert!(s.snap_to_grid);
    assert_eq!(s.project.assets.len(), 1);
}

#[test]
fn old_take_moves_into_the_project() {
    let mut s = SessionState {
        take: Some(TakeState {
            armed: vec![0],
            start_pulses: 42,
            bpm: num(96.0),
            time_sig_num: 4,
            take_user_offset_units: num(0.0),
        }),
        ..old_session()
    };
    migrate_into_project(&mut s);
    assert_eq!(s.project.assets.len(), 1);
    assert!(s.take.is_none());
    assert_eq!(s.primary_take().expect("old take moved").start_pulses, 42);
}

#[test]
fn old_header_moves_into_the_first_asset() {
    let mut s = SessionState {
        asset_meta: Some(AssetMeta {
            production_code: "ANDD02".into(),
            variant_name: "Atlas".into(),
            asset_name: "Atlas".into(),
            ..Default::default()
        }),
        ..old_session()
    };
    migrate_into_project(&mut s);
    assert_eq!(s.project.assets.len(), 1);
    assert!(s.asset_meta.is_none());
    assert_eq!(s.project.assets[0].meta.production_code, "ANDD02");
    assert_eq!(s.project.assets[0].meta.variant_name, "Atlas");
}

#[test]
fn section_takes_come_back_in_order() {
    let mk = |pulses: u64, bpm: f32| TakeState {
        armed: vec![0, 2],
        start_pulses: pulses,
        bpm: num(bpm),
        time_sig_num: 4,
        take_user_offset_units: num(0.0),
    };
    let s = SessionState::with_section_takes(
        "atlas".into(),
        48_000,
        4,
        num(-14.0),
        num(1.0),
        true,
        vec!["L0".into()],
        vec![
            (SectionKind::Outro, mk(900, 100.0)),
            (SectionKind::Intro, mk(100, 120.0)),
            (SectionKind::Main, mk(500, 110.0)),
        ],
    );
    let takes = s.section_takes();
    let kinds: Vec<_> = takes.iter().map(|(k, _)| *k).collect();
    assert_eq!(kinds, vec![SectionKind::Intro, SectionKind::Main, SectionKind::Outro]);
    let main = takes.iter().find(|(k, _)| *k == SectionKind::Main).unwrap();
    assert_eq!(main.1.start_pulses, 500);
    assert_eq!(main.1.bpm, num(110.0));
    assert_eq!(main.1.armed, vec![0, 2]);
    assert_eq!(s.primary_take().unwrap().start_pulses, 500);
}

#[test]
fn a_project_can_be_worked_on_further() {
    let mut s = SessionState::with_single_take(
        "atlas".into(),
        48_000,
        4,
        num(-14.0),
        num(1.0),
        true,
        vec!["L0".into()],
        Some(demo_take()),
    );
    let module = s.project.assets[0].pages[0].modules[0].uuid;
    s.project.add_section(module, SectionKind::Intro);
    s.project.add_section(module, SectionKind::Outro);
    let sections = &s.project.assets[0].pages[0].modules[0].sections;
    let kinds: Vec<_> = sections.iter().map(|sec| sec.kind).collect();
    assert_eq!(kinds, vec![SectionKind::Intro, SectionKind::Main, SectionKind::Outro]);
    let pattern = sections[1].patterns[0].uuid;
    s.project.add_out_region(pattern, Region::new_out(829_487, 863_971, num(1.0), num(0.756)));
    let main = &s.project.assets[0].pages[0].modules[0].sections[1];
    assert_eq!(main.patterns[0].out_regions.len(), 1);
    assert_eq!(main.patterns[0].out_regions[0].sync_frames, 829_487);
}

#[test]
fn a_take_of_an_intro_alone_is_not_primary() {
    let s = SessionState::with_section_takes(
        "s".into(),
        48_000,
        4,
        num(-14.0),
        num(1.0),
        true,
        vec![],
        vec![(SectionKind::Intro, demo_take())],
    );
    assert!(s.primary_take().is_none());
    assert_eq!(s.section_takes().len(), 1);
    assert_eq!(session_file(), "session.toml");
}
