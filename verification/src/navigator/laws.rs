//! What holds of the tree across look-ups and edits.
use vstd::prelude::*;

use crate::ids::Uuid;
use crate::navigator::model::default_project;
use crate::navigator::model::seeded_page;
use crate::navigator::model::AssetView;
use crate::navigator::model::ModuleView;
use crate::navigator::model::PageView;
use crate::navigator::model::PatternView;
use crate::navigator::model::ProjectView;
use crate::navigator::model::SectionKind;
use crate::navigator::model::SectionView;
use crate::navigator::ops::asset_normal;
use crate::navigator::ops::asset_ok;
use crate::navigator::ops::asset_uuids;
use crate::navigator::ops::by_kind;
use crate::navigator::ops::canonical;
use crate::navigator::ops::enabled_flipped;
use crate::navigator::ops::fresh_module;
use crate::navigator::ops::fresh_page;
use crate::navigator::ops::fresh_section;
use crate::navigator::ops::kind_is;
use crate::navigator::ops::lemma_by_kind;
use crate::navigator::ops::lemma_by_kind_canonical;
use crate::navigator::ops::lemma_filter_push;
use crate::navigator::ops::module_normal;
use crate::navigator::ops::module_ok;
use crate::navigator::ops::module_uuids;
use crate::navigator::ops::page_normal;
use crate::navigator::ops::page_ok;
use crate::navigator::ops::page_uuids;
use crate::navigator::ops::ref_edit_flipped;
use crate::navigator::ops::section_uuids;
use crate::navigator::ops::with_module_after;
use crate::navigator::ops::with_page_added;
use crate::navigator::ops::with_page_after;
use crate::navigator::ops::with_pattern_at;
use crate::navigator::ops::with_section_added;
use crate::navigator::ops::without_section;
use crate::navigator::queries::asset_is;
use crate::navigator::queries::asset_refs;
use crate::navigator::queries::lemma_found_pattern;
use crate::navigator::queries::module_in_asset;
use crate::navigator::queries::module_in_page;
use crate::navigator::queries::module_is;
use crate::navigator::queries::module_refs;
use crate::navigator::queries::page_in_asset;
use crate::navigator::queries::page_is;
use crate::navigator::queries::page_refs;
use crate::navigator::queries::pattern_in_asset;
use crate::navigator::queries::pattern_in_module;
use crate::navigator::queries::pattern_in_page;
use crate::navigator::queries::pattern_in_section;
use crate::navigator::queries::pattern_is;
use crate::navigator::queries::patterns_of_asset;
use crate::navigator::queries::patterns_of_module;
use crate::navigator::queries::patterns_of_page;
use crate::navigator::queries::patterns_of_section;
use crate::navigator::queries::section_in_asset;
use crate::navigator::queries::section_in_module;
use crate::navigator::queries::section_in_page;
use crate::navigator::queries::section_is;
use crate::seqs::lemma_first_hit_found;
use crate::seqs::lemma_first_index_found;
use crate::seqs::lemma_flat_contains;
use crate::seqs::lemma_hit_update_new;
use crate::seqs::lemma_hit_update_same;
use crate::seqs::lemma_index_insert_new;
use crate::seqs::lemma_index_update_same;
use crate::seqs::lemma_total_insert;
use crate::seqs::lemma_total_update;
use crate::seqs::total;

verus! {

/// A fresh project satisfies the invariant of the tree.
pub proof fn default_project_is_well_formed(v: ProjectView)
    requires
        default_project(v),
    ensures
        v.well_formed(),
{
    let a = v.assets[0];
    let p = a.pages[0];
    assert(module_ok(p.modules[0]));
    assert(page_ok(p));
    assert(asset_ok(a));
}

proof fn lemma_module_sorted(m: ModuleView)
    requires
        module_ok(m),
    ensures
        module_normal()(m) == m,
{
    lemma_by_kind_canonical(m.sections);
}

proof fn lemma_page_sorted(p: PageView)
    requires
        page_ok(p),
    ensures
        page_normal()(p) == p,
{
    assert forall|m: int| 0 <= m < p.modules.len() implies #[trigger] module_normal()(p.modules[m])
        == p.modules[m] by {
        lemma_module_sorted(p.modules[m]);
    }
    assert(p.modules.map_values(module_normal()) =~= p.modules);
}

proof fn lemma_asset_sorted(a: AssetView)
    requires
        asset_ok(a),
    ensures
        asset_normal()(a) == a,
{
    assert forall|p: int| 0 <= p < a.pages.len() implies #[trigger] page_normal()(a.pages[p])
        == a.pages[p] by {
        lemma_page_sorted(a.pages[p]);
    }
    assert(a.pages.map_values(page_normal()) =~= a.pages);
}

/// A well-formed tree is sorted already: normalizing it changes nothing.
pub proof fn normalize_keeps_well_formed(v: ProjectView)
    requires
        v.well_formed(),
    ensures
        v.normalized() == v,
{
    assert forall|a: int| 0 <= a < v.assets.len() implies #[trigger] asset_normal()(v.assets[a])
        == v.assets[a] by {
        lemma_asset_sorted(v.assets[a]);
    }
    assert(v.assets.map_values(asset_normal()) =~= v.assets);
}

proof fn lemma_module_twice(m: ModuleView)
    ensures
        module_normal()(module_normal()(m)) == module_normal()(m),
{
    lemma_by_kind(m.sections);
    lemma_by_kind_canonical(by_kind(m.sections));
}

proof fn lemma_page_twice(p: PageView)
    ensures
        page_normal()(page_normal()(p)) == page_normal()(p),
{
    let once = p.modules.map_values(module_normal());
    assert forall|m: int| 0 <= m < once.len() implies module_normal()(#[trigger] once[m])
        == once[m] by {
        lemma_module_twice(p.modules[m]);
    }
    assert(once.map_values(module_normal()) =~= once);
}

proof fn lemma_asset_twice(a: AssetView)
    ensures
        asset_normal()(asset_normal()(a)) == asset_normal()(a),
{
    let once = a.pages.map_values(page_normal());
    assert forall|p: int| 0 <= p < once.len() implies page_normal()(#[trigger] once[p])
        == once[p] by {
        lemma_page_twice(a.pages[p]);
    }
    assert(once.map_values(page_normal()) =~= once);
}

/// Normalizing twice is normalizing once.
pub proof fn normalize_is_idempotent(v: ProjectView)
    ensures
        v.normalized().normalized() == v.normalized(),
{
    let once = v.assets.map_values(asset_normal());
    assert forall|a: int| 0 <= a < once.len() implies asset_normal()(#[trigger] once[a])
        == once[a] by {
        lemma_asset_twice(v.assets[a]);
    }
    assert(once.map_values(asset_normal()) =~= once);
}

/// A pattern is found if and only if it is among all patterns.
pub proof fn found_patterns_are_collected(v: ProjectView, u: Uuid)
    ensures
        v.find_pattern(u) is Some <==> exists|i: int|
            0 <= i < v.all_patterns().len() && (#[trigger] v.all_patterns()[i]).uuid == u,
{
    lemma_found_pattern(v, u);
    if let Some((a, (p, (m, (s, t))))) = v.find_pattern(u) {
        let x = v.assets[a];
        let y = x.pages[p];
        let z = y.modules[m];
        let w = z.sections[s];
        let pat = w.patterns[t];
        assert(patterns_of_section()(z.sections[s]).contains(pat)) by {
            assert(w.patterns[t] == pat);
        }
        lemma_flat_contains(z.sections, patterns_of_section(), pat);
        assert(patterns_of_module()(y.modules[m]).contains(pat));
        lemma_flat_contains(y.modules, patterns_of_module(), pat);
        assert(patterns_of_page()(x.pages[p]).contains(pat));
        lemma_flat_contains(x.pages, patterns_of_page(), pat);
        assert(patterns_of_asset()(v.assets[a]).contains(pat));
        lemma_flat_contains(v.assets, patterns_of_asset(), pat);
        let i = choose|i: int| 0 <= i < v.all_patterns().len() && v.all_patterns()[i] == pat;
        assert(v.all_patterns()[i].uuid == u);
    }
    if exists|i: int|
        0 <= i < v.all_patterns().len() && (#[trigger] v.all_patterns()[i]).uuid == u {
        let i = choose|i: int|
            0 <= i < v.all_patterns().len() && (#[trigger] v.all_patterns()[i]).uuid == u;
        let pat = v.all_patterns()[i];
        assert(v.all_patterns().contains(pat));
        lemma_flat_contains(v.assets, patterns_of_asset(), pat);
        let a = choose|a: int|
            0 <= a < v.assets.len() && (#[trigger] patterns_of_asset()(v.assets[a])).contains(pat);
        let x = v.assets[a];
        lemma_flat_contains(x.pages, patterns_of_page(), pat);
        let p = choose|p: int|
            0 <= p < x.pages.len() && (#[trigger] patterns_of_page()(x.pages[p])).contains(pat);
        let y = x.pages[p];
        lemma_flat_contains(y.modules, patterns_of_module(), pat);
        let m = choose|m: int|
            0 <= m < y.modules.len() && (#[trigger] patterns_of_module()(y.modules[m])).contains(
                pat,
            );
        let z = y.modules[m];
        lemma_flat_contains(z.sections, patterns_of_section(), pat);
        let s = choose|s: int|
            0 <= s < z.sections.len() && (#[trigger] patterns_of_section()(
                z.sections[s],
            )).contains(pat);
        let w = z.sections[s];
        let t = choose|t: int| 0 <= t < w.patterns.len() && w.patterns[t] == pat;
        lemma_first_index_found(w.patterns, pattern_is(u));
        assert(pattern_is(u)(w.patterns[t]));
        assert(pattern_in_section(u)(z.sections[s]) is Some);
        lemma_first_hit_found(z.sections, pattern_in_section(u));
        assert(pattern_in_module(u)(y.modules[m]) is Some);
        lemma_first_hit_found(y.modules, pattern_in_module(u));
        assert(pattern_in_page(u)(x.pages[p]) is Some);
        lemma_first_hit_found(x.pages, pattern_in_page(u));
        assert(pattern_in_asset(u)(v.assets[a]) is Some);
        lemma_first_hit_found(v.assets, pattern_in_asset(u));
    }
}

/// An asset that was added under an unused identity is found at the end.
pub proof fn added_asset_is_found(v: ProjectView, x: AssetView)
    requires
        v.find_asset(x.uuid) is None,
    ensures
        (ProjectView { assets: v.assets.push(x) }).find_asset(x.uuid) == Some(
            v.assets.len() as int,
        ),
{
    lemma_index_insert_new(v.assets, asset_is(x.uuid), v.assets.len() as int, x);
    assert(v.assets.insert(v.assets.len() as int, x) =~= v.assets.push(x));
}

/// A page put after another, under an unused identity, is found there.
pub proof fn inserted_page_is_found(v: ProjectView, loc: (int, int), x: PageView)
    requires
        v.page_at(loc.0, loc.1) is Some,
        v.find_page(x.uuid) is None,
    ensures
        with_page_after(v, loc, x).find_page(x.uuid) == Some((loc.0, loc.1 + 1)),
{
    let u = x.uuid;
    let a = v.assets[loc.0];
    lemma_first_hit_found(v.assets, page_in_asset(u));
    assert(page_in_asset(u)(v.assets[loc.0]) is None);
    lemma_index_insert_new(a.pages, page_is(u), loc.1 + 1, x);
    let b = AssetView { pages: a.pages.insert(loc.1 + 1, x), ..a };
    lemma_hit_update_new(v.assets, page_in_asset(u), loc.0, b);
}

/// A page added at the end of an asset, under an unused identity, is found
/// there.
pub proof fn added_page_is_found(v: ProjectView, a: int, x: PageView)
    requires
        v.asset_at(a) is Some,
        v.find_page(x.uuid) is None,
    ensures
        with_page_added(v, a, x).find_page(x.uuid) == Some((a, v.assets[a].pages.len() as int)),
{
    let u = x.uuid;
    let y = v.assets[a];
    lemma_first_hit_found(v.assets, page_in_asset(u));
    assert(page_in_asset(u)(v.assets[a]) is None);
    lemma_index_insert_new(y.pages, page_is(u), y.pages.len() as int, x);
    assert(y.pages.insert(y.pages.len() as int, x) =~= y.pages.push(x));
    let b = AssetView { pages: y.pages.push(x), ..y };
    lemma_hit_update_new(v.assets, page_in_asset(u), a, b);
}

/// A module put after another, under an unused identity, is found there.
pub proof fn inserted_module_is_found(v: ProjectView, loc: (int, (int, int)), x: ModuleView)
    requires
        v.module_at(loc.0, loc.1.0, loc.1.1) is Some,
        v.find_module(x.uuid) is None,
    ensures
        with_module_after(v, loc, x).find_module(x.uuid) == Some(
            (loc.0, (loc.1.0, loc.1.1 + 1)),
        ),
{
    let u = x.uuid;
    let a = v.assets[loc.0];
    let p = a.pages[loc.1.0];
    lemma_first_hit_found(v.assets, module_in_asset(u));
    assert(module_in_asset(u)(v.assets[loc.0]) is None);
    lemma_first_hit_found(a.pages, module_in_page(u));
    assert(module_in_page(u)(a.pages[loc.1.0]) is None);
    lemma_index_insert_new(p.modules, module_is(u), loc.1.1 + 1, x);
    let q = PageView { modules: p.modules.insert(loc.1.1 + 1, x), ..p };
    lemma_hit_update_new(a.pages, module_in_page(u), loc.1.0, q);
    let b = AssetView { pages: a.pages.update(loc.1.0, q), ..a };
    lemma_hit_update_new(v.assets, module_in_asset(u), loc.0, b);
}

/// Where a section sorts to when it is put at the end.
pub open spec fn sorted_place(s: Seq<SectionView>, kind: SectionKind) -> int {
    let i = s.filter(kind_is(SectionKind::Intro)).len();
    let m = s.filter(kind_is(SectionKind::Main)).len();
    let o = s.filter(kind_is(SectionKind::Outro)).len();
    match kind {
        SectionKind::Intro => i as int,
        SectionKind::Main => (i + m) as int,
        SectionKind::Outro => (i + m + o) as int,
    }
}

proof fn lemma_by_kind_insert(s: Seq<SectionView>, x: SectionView)
    ensures
        0 <= sorted_place(s, x.kind) <= by_kind(s).len(),
        by_kind(s.push(x)) == by_kind(s).insert(sorted_place(s, x.kind), x),
{
    lemma_filter_push(s, kind_is(SectionKind::Intro), x);
    lemma_filter_push(s, kind_is(SectionKind::Main), x);
    lemma_filter_push(s, kind_is(SectionKind::Outro), x);
    assert(by_kind(s.push(x)) =~= by_kind(s).insert(sorted_place(s, x.kind), x));
}

/// Adding a section to sorted ones puts it after those of its kind and
/// moves no other past another.
pub proof fn added_section_place(s: Seq<SectionView>, x: SectionView)
    requires
        canonical(s),
    ensures
        0 <= sorted_place(s, x.kind) <= s.len(),
        by_kind(s.push(x)) == s.insert(sorted_place(s, x.kind), x),
{
    lemma_by_kind_insert(s, x);
    lemma_by_kind_canonical(s);
}

/// A section added under an unused identity is found at its sorted place.
pub proof fn added_section_is_found(v: ProjectView, loc: (int, (int, int)), x: SectionView)
    requires
        v.well_formed(),
        v.module_at(loc.0, loc.1.0, loc.1.1) is Some,
        v.find_section(x.uuid) is None,
    ensures
        with_section_added(v, loc, x).find_section(x.uuid) == Some(
            (
                loc.0,
                (
                    loc.1.0,
                    (
                        loc.1.1,
                        sorted_place(
                            v.assets[loc.0].pages[loc.1.0].modules[loc.1.1].sections,
                            x.kind,
                        ),
                    ),
                ),
            ),
        ),
{
    let u = x.uuid;
    let a = v.assets[loc.0];
    let p = a.pages[loc.1.0];
    let m = p.modules[loc.1.1];
    assert(asset_ok(a) && page_ok(p) && module_ok(m));
    lemma_first_hit_found(v.assets, section_in_asset(u));
    assert(section_in_asset(u)(v.assets[loc.0]) is None);
    lemma_first_hit_found(a.pages, section_in_page(u));
    assert(section_in_page(u)(a.pages[loc.1.0]) is None);
    lemma_first_hit_found(p.modules, section_in_module(u));
    assert(section_in_module(u)(p.modules[loc.1.1]) is None);
    added_section_place(m.sections, x);
    lemma_index_insert_new(m.sections, section_is(u), sorted_place(m.sections, x.kind), x);
    let n = ModuleView { sections: by_kind(m.sections.push(x)), ..m };
    lemma_hit_update_new(p.modules, section_in_module(u), loc.1.1, n);
    let q = PageView { modules: p.modules.update(loc.1.1, n), ..p };
    lemma_hit_update_new(a.pages, section_in_page(u), loc.1.0, q);
    let b = AssetView { pages: a.pages.update(loc.1.0, q), ..a };
    lemma_hit_update_new(v.assets, section_in_asset(u), loc.0, b);
}

/// Deleting a section that was just added, under an unused identity, gives
/// back the tree as it was, and is never refused.
pub proof fn deleting_added_section_restores(
    v: ProjectView,
    loc: (int, (int, int)),
    x: SectionView,
)
    requires
        v.well_formed(),
        v.module_at(loc.0, loc.1.0, loc.1.1) is Some,
        v.find_section(x.uuid) is None,
    ensures
        ({
            let w = with_section_added(v, loc, x);
            let (a, (p, (m, s))) = w.find_section(x.uuid)->0;
            &&& w.section_deletable(x.uuid)
            &&& w.assets[a].pages[p].modules[m].sections[s] == x
            &&& without_section(w, a, p, m, s) == v
        }),
{
    added_section_is_found(v, loc, x);
    let a = v.assets[loc.0];
    let p = a.pages[loc.1.0];
    let m = p.modules[loc.1.1];
    assert(asset_ok(a) && page_ok(p) && module_ok(m));
    added_section_place(m.sections, x);
    let k = sorted_place(m.sections, x.kind);
    let w = with_section_added(v, loc, x);
    let y = w.assets[loc.0].pages[loc.1.0].modules[loc.1.1];
    assert(y.sections == m.sections.insert(k, x));
    assert(y.sections.remove(k) =~= m.sections);
    let back = w.with_module(
        loc.0,
        loc.1.0,
        loc.1.1,
        ModuleView { sections: y.sections.remove(k), ..y },
    );
    assert(back.assets[loc.0].pages[loc.1.0].modules =~= p.modules);
    assert(back.assets[loc.0].pages =~= a.pages);
    assert(back.assets =~= v.assets);
}

/// A pattern added to a section under an unused identity is found there.
pub proof fn added_pattern_is_found(
    v: ProjectView,
    loc: (int, (int, (int, int))),
    i: int,
    x: PatternView,
)
    requires
        v.section_at(loc.0, loc.1.0, loc.1.1.0, loc.1.1.1) matches Some(y) && 0 <= i
            <= y.patterns.len(),
        v.find_pattern(x.uuid) is None,
    ensures
        with_pattern_at(v, loc, i, x).find_pattern(x.uuid) == Some(
            (loc.0, (loc.1.0, (loc.1.1.0, (loc.1.1.1, i)))),
        ),
{
    let u = x.uuid;
    let a = v.assets[loc.0];
    let p = a.pages[loc.1.0];
    let m = p.modules[loc.1.1.0];
    let s = m.sections[loc.1.1.1];
    lemma_first_hit_found(v.assets, pattern_in_asset(u));
    assert(pattern_in_asset(u)(v.assets[loc.0]) is None);
    lemma_first_hit_found(a.pages, pattern_in_page(u));
    assert(pattern_in_page(u)(a.pages[loc.1.0]) is None);
    lemma_first_hit_found(p.modules, pattern_in_module(u));
    assert(pattern_in_module(u)(p.modules[loc.1.1.0]) is None);
    lemma_first_hit_found(m.sections, pattern_in_section(u));
    assert(pattern_in_section(u)(m.sections[loc.1.1.1]) is None);
    lemma_index_insert_new(s.patterns, pattern_is(u), i, x);
    let t = SectionView { patterns: s.patterns.insert(i, x), ..s };
    lemma_hit_update_new(m.sections, pattern_in_section(u), loc.1.1.1, t);
    let n = ModuleView { sections: m.sections.update(loc.1.1.1, t), ..m };
    lemma_hit_update_new(p.modules, pattern_in_module(u), loc.1.1.0, n);
    let q = PageView { modules: p.modules.update(loc.1.1.0, n), ..p };
    lemma_hit_update_new(a.pages, pattern_in_page(u), loc.1.0, q);
    let b = AssetView { pages: a.pages.update(loc.1.0, q), ..a };
    lemma_hit_update_new(v.assets, pattern_in_asset(u), loc.0, b);
}

/// A change that keeps a pattern's identity leaves every pattern where it
/// is found.
pub proof fn edits_keep_pattern_paths(
    v: ProjectView,
    u: Uuid,
    f: spec_fn(PatternView) -> PatternView,
    other: Uuid,
)
    requires
        forall|p: PatternView| (#[trigger] f(p)).uuid == p.uuid,
    ensures
        v.edit_pattern(u, f).find_pattern(other) == v.find_pattern(other),
{
    lemma_found_pattern(v, u);
    if let Some((ai, (pi, (mi, (si, ti))))) = v.find_pattern(u) {
        let a = v.assets[ai];
        let p = a.pages[pi];
        let m = p.modules[mi];
        let s = m.sections[si];
        let x = f(s.patterns[ti]);
        lemma_index_update_same(s.patterns, pattern_is(other), ti, x);
        let t = SectionView { patterns: s.patterns.update(ti, x), ..s };
        lemma_hit_update_same(m.sections, pattern_in_section(other), si, t);
        let n = ModuleView { sections: m.sections.update(si, t), ..m };
        lemma_hit_update_same(p.modules, pattern_in_module(other), mi, n);
        let q = PageView { modules: p.modules.update(mi, n), ..p };
        lemma_hit_update_same(a.pages, pattern_in_page(other), pi, q);
        let b = AssetView { pages: a.pages.update(pi, q), ..a };
        lemma_hit_update_same(v.assets, pattern_in_asset(other), ai, b);
    }
}

/// Two changes of one pattern in turn are the one change that does both.
pub proof fn edits_compose(
    v: ProjectView,
    u: Uuid,
    f: spec_fn(PatternView) -> PatternView,
    g: spec_fn(PatternView) -> PatternView,
)
    requires
        forall|p: PatternView| (#[trigger] f(p)).uuid == p.uuid,
    ensures
        v.edit_pattern(u, f).edit_pattern(u, g) == v.edit_pattern(
            u,
            |p: PatternView| g(f(p)),
        ),
{
    edits_keep_pattern_paths(v, u, f, u);
    lemma_found_pattern(v, u);
    if let Some((ai, (pi, (mi, (si, ti))))) = v.find_pattern(u) {
        let h = |p: PatternView| g(f(p));
        let w = v.edit_pattern(u, f);
        let l = w.edit_pattern(u, g);
        let r = v.edit_pattern(u, h);
        let x = v.assets[ai].pages[pi].modules[mi].sections[si].patterns[ti];
        assert(w.assets[ai].pages[pi].modules[mi].sections[si].patterns[ti] == f(x));
        assert(l.assets[ai].pages[pi].modules[mi].sections[si].patterns
            =~= r.assets[ai].pages[pi].modules[mi].sections[si].patterns);
        assert(l.assets[ai].pages[pi].modules[mi].sections
            =~= r.assets[ai].pages[pi].modules[mi].sections);
        assert(l.assets[ai].pages[pi].modules =~= r.assets[ai].pages[pi].modules);
        assert(l.assets[ai].pages =~= r.assets[ai].pages);
        assert(l.assets =~= r.assets);
    }
}

/// A change of a pattern that changes nothing leaves the tree as it is.
proof fn lemma_edit_nothing(v: ProjectView, u: Uuid, f: spec_fn(PatternView) -> PatternView)
    requires
        forall|p: PatternView| #[trigger] f(p) == p,
    ensures
        v.edit_pattern(u, f) == v,
{
    lemma_found_pattern(v, u);
    if let Some((ai, (pi, (mi, (si, ti))))) = v.find_pattern(u) {
        let r = v.edit_pattern(u, f);
        assert(r.assets[ai].pages[pi].modules[mi].sections[si].patterns
            =~= v.assets[ai].pages[pi].modules[mi].sections[si].patterns);
        assert(r.assets[ai].pages[pi].modules[mi].sections
            =~= v.assets[ai].pages[pi].modules[mi].sections);
        assert(r.assets[ai].pages[pi].modules =~= v.assets[ai].pages[pi].modules);
        assert(r.assets[ai].pages =~= v.assets[ai].pages);
        assert(r.assets =~= v.assets);
    }
}

/// Toggling a pattern's enabled mark twice gives back the tree.
pub proof fn toggling_enabled_twice_restores(v: ProjectView, u: Uuid)
    ensures
        v.edit_pattern(u, enabled_flipped()).edit_pattern(u, enabled_flipped()) == v,
{
    let f = enabled_flipped();
    edits_compose(v, u, f, f);
    lemma_edit_nothing(v, u, |p: PatternView| f(f(p)));
}

/// Toggling a pattern's ref-edit mark twice gives back the tree.
pub proof fn toggling_ref_edit_twice_restores(v: ProjectView, u: Uuid)
    ensures
        v.edit_pattern(u, ref_edit_flipped()).edit_pattern(u, ref_edit_flipped()) == v,
{
    let f = ref_edit_flipped();
    edits_compose(v, u, f, f);
    lemma_edit_nothing(v, u, |p: PatternView| f(f(p)));
}

/// Putting in a module adds its own reference to the count of its content
/// and to no other.
pub proof fn inserted_module_counts(
    v: ProjectView,
    loc: (int, (int, int)),
    x: ModuleView,
    c: Uuid,
)
    requires
        v.module_at(loc.0, loc.1.0, loc.1.1) is Some,
    ensures
        with_module_after(v, loc, x).content_refs(c) == v.content_refs(c) + (if x.content_uuid
            == c {
            1nat
        } else {
            0nat
        }),
{
    let a = v.assets[loc.0];
    let p = a.pages[loc.1.0];
    let q = PageView { modules: p.modules.insert(loc.1.1 + 1, x), ..p };
    let b = AssetView { pages: a.pages.update(loc.1.0, q), ..a };
    lemma_total_insert(p.modules, module_refs(c), loc.1.1 + 1, x);
    lemma_total_update(a.pages, page_refs(c), loc.1.0, q);
    lemma_total_update(v.assets, asset_refs(c), loc.0, b);
}

/// A duplicated module is one more reference to the content of the original;
/// no other count changes.
pub proof fn duplicate_module_bumps_content(
    v: ProjectView,
    loc: (int, (int, int)),
    copy: ModuleView,
    c: Uuid,
)
    requires
        v.module_at(loc.0, loc.1.0, loc.1.1) matches Some(orig) && fresh_module(
            orig,
            copy,
            false,
        ),
    ensures
        with_module_after(v, loc, copy).content_refs(c) == v.content_refs(c) + (if c
            == v.assets[loc.0].pages[loc.1.0].modules[loc.1.1].content_uuid {
            1nat
        } else {
            0nat
        }),
{
    inserted_module_counts(v, loc, copy, c);
}

/// A cloned module is a reference to itself only: the content of the original
/// and every other keeps its count.
pub proof fn clone_module_keeps_other_contents(
    v: ProjectView,
    loc: (int, (int, int)),
    copy: ModuleView,
    c: Uuid,
)
    requires
        v.module_at(loc.0, loc.1.0, loc.1.1) is Some,
        copy.content_uuid == copy.uuid,
        c != copy.uuid,
    ensures
        with_module_after(v, loc, copy).content_refs(c) == v.content_refs(c),
        with_module_after(v, loc, copy).content_refs(copy.uuid) == v.content_refs(copy.uuid) + 1,
{
    inserted_module_counts(v, loc, copy, c);
    inserted_module_counts(v, loc, copy, copy.uuid);
}

proof fn lemma_same_refs(s: Seq<ModuleView>, t: Seq<ModuleView>, c: Uuid)
    requires
        s.len() == t.len(),
        forall|i: int| 0 <= i < s.len() ==> (#[trigger] t[i]).content_uuid == s[i].content_uuid,
    ensures
        total(t, module_refs(c)) == total(s, module_refs(c)),
    decreases s.len(),
{
    if s.len() > 0 {
        assert forall|i: int| 0 <= i < s.drop_last().len() implies (
        #[trigger] t.drop_last()[i]).content_uuid == s.drop_last()[i].content_uuid by {
            assert(t[i].content_uuid == s[i].content_uuid);
        }
        lemma_same_refs(s.drop_last(), t.drop_last(), c);
        assert(t[t.len() - 1].content_uuid == s[s.len() - 1].content_uuid);
    }
}

/// A duplicated page refers to each content as often as the original does.
pub proof fn duplicate_page_bumps_contents(
    v: ProjectView,
    loc: (int, int),
    copy: PageView,
    c: Uuid,
)
    requires
        v.page_at(loc.0, loc.1) matches Some(orig) && fresh_page(orig, copy, false),
    ensures
        with_page_after(v, loc, copy).content_refs(c) == v.content_refs(c) + page_refs(c)(
            v.assets[loc.0].pages[loc.1],
        ),
{
    let a = v.assets[loc.0];
    let p = a.pages[loc.1];
    assert forall|i: int| 0 <= i < p.modules.len() implies (
    #[trigger] copy.modules[i]).content_uuid == p.modules[i].content_uuid by {
        assert(fresh_module(p.modules[i], copy.modules[i], false));
    }
    lemma_same_refs(p.modules, copy.modules, c);
    lemma_total_insert(a.pages, page_refs(c), loc.1 + 1, copy);
    let b = AssetView { pages: a.pages.insert(loc.1 + 1, copy), ..a };
    lemma_total_update(v.assets, asset_refs(c), loc.0, b);
}

/// A new page refers to itself once: its content counts one, where the
/// identities were not used before.
pub proof fn new_page_counts_once(v: ProjectView, a: int, x: PageView, id: Seq<char>)
    requires
        v.asset_at(a) is Some,
        seeded_page(x, id),
        x.modules[0].uuid != x.uuid,
        v.content_refs(x.uuid) == 0,
    ensures
        with_page_added(v, a, x).content_refs(x.content_uuid) == 1,
{
    let y = v.assets[a];
    let c = x.uuid;
    assert(total(x.modules, module_refs(c)) == 0) by {
        assert(total(x.modules.drop_last(), module_refs(c)) == 0);
        assert(x.modules.last() == x.modules[0]);
    }
    lemma_total_insert(y.pages, page_refs(c), y.pages.len() as int, x);
    assert(y.pages.insert(y.pages.len() as int, x) =~= y.pages.push(x));
    let b = AssetView { pages: y.pages.push(x), ..y };
    lemma_total_update(v.assets, asset_refs(c), a, b);
}

/// What a deletion reports begins with the node's own identity.
pub proof fn deletion_reports_the_node(
    a: AssetView,
    p: PageView,
    m: ModuleView,
    s: SectionView,
)
    ensures
        asset_uuids()(a)[0] == a.uuid,
        page_uuids()(p)[0] == p.uuid,
        module_uuids()(m)[0] == m.uuid,
        section_uuids()(s)[0] == s.uuid,
{
}

/// A copied section is of the kind of the original and keeps what its
/// patterns hold.
pub proof fn copies_keep_contents(orig: SectionView, copy: SectionView, i: int)
    requires
        fresh_section(orig, copy),
        0 <= i < orig.patterns.len(),
    ensures
        copy.kind == orig.kind,
        copy.patterns[i].clip_source == orig.patterns[i].clip_source,
        copy.patterns[i].in_regions == orig.patterns[i].in_regions,
        copy.patterns[i].out_regions == orig.patterns[i].out_regions,
{
    assert(crate::navigator::ops::fresh_pattern(orig.patterns[i], copy.patterns[i]));
}

} // verus!
