use gatherer_hub::ids::Uuid;
use gatherer_hub::navigator::model::{
    AssetMeta, AssetType, Module, Project, Region, Section, SectionKind,
};
use gatherer_hub::navigator::ops::{
    freshen_module_with, freshen_page_with, freshen_pattern_with, freshen_section_with,
};
use gatherer_hub::number::Real32;

fn num(x: f32) -> Real32 {
    Real32 { bits: x.to_bits() }
}

fn one_module_project() -> (Project, Uuid) {
    let p = Project::reset_to_default();
    let module_uuid = p.assets[0].pages[0].modules[0].uuid;
    (p, module_uuid)
}

fn kinds(sections: &[Section]) -> Vec<SectionKind> {
    sections.iter().map(|s| s.kind).collect()
}

#[test]
fn default_project_shape() {
    let p = Project::reset_to_default();
    assert_eq!(p.assets.len(), 1);
    assert_eq!(p.assets[0].pages.len(), 1);
    assert_eq!(p.assets[0].pages[0].modules.len(), 1);
    let sections = &p.assets[0].pages[0].modules[0].sections;
    assert_eq!(sections.len(), 1);
    assert_eq!(sections[0].kind, SectionKind::Main);
}

#[test]
fn module_new_self_references_content_uuid() {
    let m = Module::new("M".to_string());
    assert_eq!(m.uuid, m.content_uuid);
}

#[test]
fn add_section_keeps_canonical_order() {
    let (mut proj, module) = one_module_project();
    proj.add_section(module, SectionKind::Outro);
    proj.add_section(module, SectionKind::Intro);
    assert_eq!(
        kinds(&proj.assets[0].pages[0].modules[0].sections),
        vec![SectionKind::Intro, SectionKind::Main, SectionKind::Outro]
    );
}

#[test]
fn cannot_delete_last_child() {
    let (mut proj, module) = one_module_project();
    let only_section = proj.assets[0].pages[0].modules[0].sections[0].uuid;
    assert!(proj.delete_section(only_section).is_empty());
    assert_eq!(proj.assets[0].pages[0].modules[0].sections.len(), 1);

    let only_module = module;
    assert!(proj.delete_module(only_module).is_empty());
    let only_page = proj.assets[0].pages[0].uuid;
    assert!(proj.delete_page(only_page).is_empty());
    let only_asset = proj.assets[0].uuid;
    assert!(proj.delete_asset(only_asset).is_empty());
}

#[test]
fn delete_section_after_adding_a_second_works() {
    let (mut proj, module) = one_module_project();
    let intro = proj.add_section(module, SectionKind::Intro).unwrap();
    let removed = proj.delete_section(intro);
    assert_eq!(removed, vec![intro]);
    assert_eq!(proj.assets[0].pages[0].modules[0].sections.len(), 1);
}

#[test]
fn duplicate_module_keeps_content_uuid_clone_regenerates() {
    let (mut proj, module) = one_module_project();
    let orig_content = proj.assets[0].pages[0].modules[0].content_uuid;

    let dup = proj.duplicate_module_right(module).unwrap();
    let dup_content = proj.find_module(dup).unwrap();
    let dup_content_uuid = proj.assets[0].pages[0].modules[dup_content.module].content_uuid;
    assert_eq!(dup_content_uuid, orig_content, "duplicate shares content_uuid");
    assert_ne!(dup, module, "duplicate gets a fresh node uuid");

    let cln = proj.clone_module_right(module).unwrap();
    let cln_path = proj.find_module(cln).unwrap();
    let cln_content_uuid = proj.assets[0].pages[0].modules[cln_path.module].content_uuid;
    assert_ne!(cln_content_uuid, orig_content, "clone regenerates content_uuid");
}

#[test]
fn clone_pattern_gives_fresh_uuid() {
    let (mut proj, _module) = one_module_project();
    let section = proj.assets[0].pages[0].modules[0].sections[0].uuid;
    let pat = proj.add_pattern(section).unwrap();
    let cloned = proj.clone_pattern(pat).unwrap();
    assert_ne!(cloned, pat);
    assert_eq!(proj.assets[0].pages[0].modules[0].sections[0].patterns.len(), 2);
}

#[test]
fn section_display_label_numbers_duplicates() {
    let (mut proj, module) = one_module_project();
    let main = proj.assets[0].pages[0].modules[0].sections[0].uuid;
    assert_eq!(proj.section_display_label(main), "Main");
    let main2 = proj.add_section(module, SectionKind::Main).unwrap();
    assert_eq!(proj.section_display_label(main), "Main 1");
    assert_eq!(proj.section_display_label(main2), "Main 2");
}

#[test]
fn unknown_nodes_are_not_found() {
    let (mut proj, _) = one_module_project();
    let nobody = Uuid { value: 7 };
    assert!(proj.find_asset(nobody).is_none());
    assert!(proj.find_page(nobody).is_none());
    assert!(proj.find_module(nobody).is_none());
    assert!(proj.find_section(nobody).is_none());
    assert!(proj.find_pattern(nobody).is_none());
    assert!(proj.add_page(nobody).is_none());
    assert!(proj.add_module_after(nobody).is_none());
    assert!(proj.add_section(nobody, SectionKind::Main).is_none());
    assert!(proj.add_pattern(nobody).is_none());
    assert!(proj.clone_pattern(nobody).is_none());
    assert!(proj.duplicate_page_right(nobody).is_none());
    assert!(!proj.delete_pattern(nobody));
    assert!(!proj.can_delete_asset(nobody));
    assert_eq!(proj.section_display_label(nobody), "");
}

#[test]
fn new_nodes_are_found_where_they_were_put() {
    let (mut proj, module) = one_module_project();
    let asset = proj.add_asset();
    assert_eq!(proj.find_asset(asset).unwrap().asset, 1);
    let page = proj.add_page(asset).unwrap();
    let at = proj.find_page(page).unwrap();
    assert_eq!((at.asset, at.page), (1, proj.assets[1].pages.len() - 1));
    let next = proj.add_module_after(module).unwrap();
    assert_eq!(proj.find_module(next).unwrap().module, 1);
    let section = proj.assets[0].pages[0].modules[0].sections[0].uuid;
    let pattern = proj.add_pattern(section).unwrap();
    assert_eq!(proj.find_pattern(pattern).unwrap().uuid, pattern);
    assert_eq!(proj.collect_all_patterns().len(), 1);
    assert_eq!(proj.collect_patterns_in_asset(asset).len(), 0);
}

#[test]
fn deleting_a_page_reports_every_node_in_it() {
    let mut proj = Project::reset_to_default();
    let asset = proj.assets[0].uuid;
    let page = proj.add_page(asset).unwrap();
    let module = proj.assets[0].pages[1].modules[0].uuid;
    let section = proj.assets[0].pages[1].modules[0].sections[0].uuid;
    assert_eq!(proj.delete_page(page), vec![page, module, section]);
    assert!(proj.find_page(page).is_none());
}

#[test]
fn content_is_counted_per_module_that_shares_it() {
    let (mut proj, module) = one_module_project();
    let content = proj.assets[0].pages[0].modules[0].content_uuid;
    assert_eq!(proj.content_ref_count(content), 1);
    proj.duplicate_module_right(module);
    assert_eq!(proj.content_ref_count(content), 2);
    proj.clone_module_right(module);
    assert_eq!(proj.content_ref_count(content), 2);
    let page = proj.assets[0].pages[0].uuid;
    proj.duplicate_page_right(page);
    assert_eq!(proj.content_ref_count(content), 4);
}

#[test]
fn copies_take_the_drawn_identities() {
    let (mut proj, module) = one_module_project();
    let first = proj.assets[0].pages[0].modules[0].sections[0].uuid;
    proj.add_pattern(first).unwrap();
    proj.add_pattern(first).unwrap();
    proj.add_section(module, SectionKind::Outro).unwrap();
    let ids: Vec<Uuid> = (100..106u128).map(|value| Uuid { value }).collect();

    let mut section = proj.assets[0].pages[0].modules[0].sections[0].clone();
    freshen_section_with(&mut section, &ids[..3].to_vec());
    assert_eq!(section.uuid, ids[0]);
    let named: Vec<Uuid> = section.patterns.iter().map(|p| p.uuid).collect();
    assert_eq!(named, ids[1..3]);
    assert_eq!(section.kind, SectionKind::Main);
    freshen_pattern_with(&mut section.patterns[1], ids[5]);
    assert_eq!((section.patterns[0].uuid, section.patterns[1].uuid), (ids[1], ids[5]));

    let mut copy = proj.assets[0].pages[0].modules[0].clone();
    let content = copy.content_uuid;
    freshen_module_with(&mut copy, &ids[..5].to_vec(), false);
    assert_eq!((copy.uuid, copy.content_uuid), (ids[0], content));
    assert_eq!((copy.sections[0].uuid, copy.sections[1].uuid), (ids[1], ids[4]));
    assert_eq!(copy.sections[0].patterns[1].uuid, ids[3]);
    freshen_module_with(&mut copy, &ids[..5].to_vec(), true);
    assert_eq!(copy.content_uuid, ids[0]);

    let mut page = proj.assets[0].pages[0].clone();
    let shared = page.content_uuid;
    freshen_page_with(&mut page, &ids, false);
    assert_eq!((page.uuid, page.content_uuid), (ids[0], shared));
    assert_eq!(page.modules[0].uuid, ids[1]);
    assert_eq!(page.modules[0].content_uuid, content);
    assert_eq!(page.modules[0].sections[0].patterns[0].uuid, ids[3]);
    assert_eq!(page.modules[0].sections[1].uuid, ids[5]);
    freshen_page_with(&mut page, &ids, true);
    assert_eq!((page.content_uuid, page.modules[0].content_uuid), (ids[0], ids[1]));
}

#[test]
fn pattern_edits_change_one_field() {
    let (mut proj, _) = one_module_project();
    let section = proj.assets[0].pages[0].modules[0].sections[0].uuid;
    let p = proj.add_pattern(section).unwrap();
    assert!(proj.find_pattern(p).unwrap().enabled);
    proj.toggle_pattern_enabled(p);
    assert!(!proj.find_pattern(p).unwrap().enabled);
    proj.toggle_pattern_enabled(p);
    assert!(proj.find_pattern(p).unwrap().enabled);
    proj.set_pattern_enabled(p, false);
    assert!(!proj.find_pattern(p).unwrap().enabled);
    proj.rename_pattern(p, "Bridge".to_string());
    assert_eq!(proj.find_pattern(p).unwrap().id, "Bridge");
    proj.set_loop(p, 10, 20, true, 3, -4);
    let q = proj.find_pattern(p).unwrap();
    assert_eq!((q.loop_start, q.loop_end, q.looping, q.xfade, q.xoffset), (10, 20, true, 3, -4));
    proj.set_ref_edit(p, true);
    assert!(proj.find_pattern(p).unwrap().ref_edit);
    proj.toggle_ref_edit(p);
    assert!(!proj.find_pattern(p).unwrap().ref_edit);
}

#[test]
fn regions_are_added_and_removed() {
    let (mut proj, _) = one_module_project();
    let section = proj.assets[0].pages[0].modules[0].sections[0].uuid;
    let p = proj.add_pattern(section).unwrap();
    proj.add_in_region(p, Region::new_in(0, 100, num(1.0), num(0.5)));
    proj.add_out_region(p, Region::new_out(500, 600, num(1.0), num(0.5)));
    proj.add_out_region(p, Region::new_out(700, 800, num(1.0), num(0.5)));
    let q = proj.find_pattern(p).unwrap();
    assert_eq!(q.in_regions[0].sync_frames, 100);
    assert_eq!(q.out_regions[1].sync_frames, 700);
    proj.remove_out_region(p, 0);
    assert_eq!(proj.find_pattern(p).unwrap().out_regions[0].begin_frames, 700);
    proj.remove_out_region(p, 9);
    assert_eq!(proj.find_pattern(p).unwrap().out_regions.len(), 1);
    proj.remove_in_region(p, 0);
    assert!(proj.find_pattern(p).unwrap().in_regions.is_empty());
}

#[test]
fn normalizing_orders_sections_and_again_changes_nothing() {
    let mut proj = Project::reset_to_default();
    let sections = &mut proj.assets[0].pages[0].modules[0].sections;
    sections.push(Section::new(SectionKind::Intro));
    sections.insert(0, Section::new(SectionKind::Outro));
    proj.normalize();
    let once = kinds(&proj.assets[0].pages[0].modules[0].sections);
    assert_eq!(once, vec![SectionKind::Intro, SectionKind::Main, SectionKind::Outro]);
    proj.normalize();
    assert_eq!(kinds(&proj.assets[0].pages[0].modules[0].sections), once);
}

#[test]
fn duplicated_sections_stand_to_the_right() {
    let (mut proj, module) = one_module_project();
    proj.add_section(module, SectionKind::Outro);
    let main = proj.assets[0].pages[0].modules[0].sections[0].uuid;
    let copy = proj.duplicate_section_right(main).unwrap();
    let sections = &proj.assets[0].pages[0].modules[0].sections;
    assert_eq!(kinds(sections), vec![SectionKind::Main, SectionKind::Main, SectionKind::Outro]);
    assert_eq!(sections[1].uuid, copy);
}

#[test]
fn identifiers_carry_the_marks_of_version_four() {
    let a = Uuid::new_v4();
    let b = Uuid::new_v4();
    assert_ne!(a, b);
    let text = a.to_text();
    assert_eq!(text.len(), 36);
    assert_eq!(&text[14..15], "4");
    assert!("89ab".contains(&text[19..20]));
    let fixed = Uuid { value: 0x0123_4567_89ab_4cde_8f01_2345_6789_abcd };
    assert_eq!(fixed.to_text(), "01234567-89ab-4cde-8f01-23456789abcd");
}

#[test]
fn blank_header_is_music() {
    let m = AssetMeta::default();
    assert_eq!(m.asset_type, AssetType::Music);
    assert!(m.production_code.is_empty() && m.tags.is_empty());
}

#[test]
fn section_kinds_have_slugs_letters_and_order() {
    let all = [SectionKind::Intro, SectionKind::Main, SectionKind::Outro];
    let slugs: Vec<&str> = all.iter().map(|k| k.slug()).collect();
    assert_eq!(slugs, vec!["intro", "main", "outro"]);
    let letters: Vec<char> = all.iter().map(|k| k.pattern_letter()).collect();
    assert_eq!(letters, vec!['i', 'm', 'o']);
    let labels: Vec<&str> = all.iter().map(|k| k.label()).collect();
    assert_eq!(labels, vec!["Intro", "Main", "Outro"]);
    let order: Vec<usize> = all.iter().map(|k| k.order_index()).collect();
    assert_eq!(order, vec![0, 1, 2]);
}
