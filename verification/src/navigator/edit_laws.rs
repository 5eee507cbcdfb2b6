//! What each edit of the tree does, and what it leaves alone.
use vstd::prelude::*;

use crate::ids::Uuid;
use crate::navigator::laws::edits_compose;
use crate::navigator::model::default_project;
use crate::navigator::model::empty_asset;
use crate::navigator::model::empty_module;
use crate::navigator::model::empty_page;
use crate::navigator::model::empty_pattern;
use crate::navigator::model::empty_section;
use crate::navigator::model::seeded_asset;
use crate::navigator::model::seeded_module;
use crate::navigator::model::seeded_page;
use crate::navigator::model::AssetType;
use crate::navigator::model::AssetView;
use crate::navigator::model::FadeLevel;
use crate::navigator::model::ModuleView;
use crate::navigator::model::PageView;
use crate::navigator::model::PatternView;
use crate::navigator::model::ProjectView;
use crate::navigator::model::Region;
use crate::navigator::model::SectionKind;
use crate::navigator::model::SectionView;
use crate::navigator::ops::asset_uuids;
use crate::navigator::ops::asset_ok;
use crate::navigator::ops::by_kind;
use crate::navigator::ops::canonical;
use crate::navigator::ops::enabled_as;
use crate::navigator::ops::enabled_flipped;
use crate::navigator::ops::fresh_module;
use crate::navigator::ops::fresh_page;
use crate::navigator::ops::fresh_pattern;
use crate::navigator::ops::fresh_section;
use crate::navigator::ops::kind_is;
use crate::navigator::ops::lemma_by_kind;
use crate::navigator::ops::lemma_by_kind_canonical;
use crate::navigator::ops::lemma_filter_push;
use crate::navigator::ops::looped;
use crate::navigator::ops::module_named;
use crate::navigator::ops::module_ok;
use crate::navigator::ops::module_size;
use crate::navigator::ops::module_uuids;
use crate::navigator::ops::page_named;
use crate::navigator::ops::page_ok;
use crate::navigator::ops::page_size;
use crate::navigator::ops::page_uuids;
use crate::navigator::ops::ref_edit_as;
use crate::navigator::ops::ref_edit_flipped;
use crate::navigator::ops::renamed;
use crate::navigator::ops::section_named;
use crate::navigator::ops::section_size;
use crate::navigator::ops::section_uuids;
use crate::navigator::ops::with_in_region;
use crate::navigator::ops::with_module_after;
use crate::navigator::ops::with_out_region;
use crate::navigator::ops::with_page_added;
use crate::navigator::ops::with_page_after;
use crate::navigator::ops::with_pattern_at;
use crate::navigator::ops::with_section_added;
use crate::navigator::ops::with_section_after;
use crate::navigator::ops::without_asset;
use crate::navigator::ops::without_in_region;
use crate::navigator::ops::without_module;
use crate::navigator::ops::without_out_region;
use crate::navigator::ops::without_page;
use crate::navigator::ops::without_pattern;
use crate::navigator::ops::without_section;
use crate::navigator::queries::asset_is;
use crate::navigator::queries::asset_refs;
use crate::navigator::queries::lemma_found_module;
use crate::navigator::queries::lemma_found_page;
use crate::navigator::queries::lemma_found_pattern;
use crate::navigator::queries::lemma_found_section;
use crate::navigator::queries::module_in_asset;
use crate::navigator::queries::module_in_page;
use crate::navigator::queries::module_is;
use crate::navigator::queries::module_refs;
use crate::navigator::queries::page_in_asset;
use crate::navigator::queries::page_is;
use crate::navigator::queries::page_refs;
use crate::navigator::queries::pattern_in_asset;
use crate::navigator::queries::pattern_in_module;
use crate::navigator::queries::pattern_in_page;
use crate::navigator::queries::pattern_in_section;
use crate::navigator::queries::pattern_is;
use crate::navigator::queries::patterns_of_asset;
use crate::navigator::queries::patterns_of_module;
use crate::navigator::queries::patterns_of_page;
use crate::navigator::queries::patterns_of_section;
use crate::navigator::queries::section_in_asset;
use crate::navigator::queries::section_in_module;
use crate::navigator::queries::section_in_page;
use crate::navigator::queries::section_is;
use crate::number::Real32;
use crate::number::HALF_BITS;
use crate::number::ONE_BITS;
use crate::number::ZERO_BITS;
use crate::seqs::first_hit;
use crate::seqs::first_index;
use crate::seqs::flat;
use crate::seqs::lemma_first_hit_found;
use crate::seqs::lemma_first_index_found;
use crate::seqs::lemma_total_take;
use crate::seqs::total;
use crate::text::blank;
use crate::text::decimal_text;

verus! {

// Patterns.

/// `t` is `s` without its element `i`: what is before it stays in place, what
/// is behind it moves up by one.
pub open spec fn closed_up<T>(s: Seq<T>, i: int, t: Seq<T>) -> bool {
    &&& t.len() + 1 == s.len()
    &&& forall|k: int| 0 <= k < i ==> #[trigger] t[k] == s[k]
    &&& forall|k: int| i <= k < t.len() ==> #[trigger] t[k] == s[k + 1]
}

/// `t` is `s` with `x` put in as element `i`: what is before it stays in place,
/// what is behind it moves down by one.
pub open spec fn opened_up<T>(s: Seq<T>, i: int, x: T, t: Seq<T>) -> bool {
    &&& t.len() == s.len() + 1
    &&& t[i] == x
    &&& forall|k: int| 0 <= k < i ==> #[trigger] t[k] == s[k]
    &&& forall|k: int| i < k < t.len() ==> #[trigger] t[k] == s[k - 1]
}

/// `t` is `s` but for its element `i`.
pub open spec fn differs_at<T>(s: Seq<T>, i: int, t: Seq<T>) -> bool {
    &&& t.len() == s.len()
    &&& forall|k: int| 0 <= k < s.len() && k != i ==> #[trigger] t[k] == s[k]
}

/// Removing a region of a pattern takes that one away and no other, and those
/// behind it move up. Where the pattern has no such region nothing changes, and
/// nothing but these regions ever does.
pub proof fn a_region_is_removed(p: PatternView, i: int)
    requires
        0 <= i,
    ensures
        i < p.in_regions.len() ==> closed_up(p.in_regions, i, without_in_region(i)(p).in_regions),
        i >= p.in_regions.len() ==> without_in_region(i)(p) == p,
        (PatternView { in_regions: p.in_regions, ..without_in_region(i)(p) }) == p,
        i < p.out_regions.len() ==> closed_up(
            p.out_regions,
            i,
            without_out_region(i)(p).out_regions,
        ),
        i >= p.out_regions.len() ==> without_out_region(i)(p) == p,
        (PatternView { out_regions: p.out_regions, ..without_out_region(i)(p) }) == p,
{
}

/// Adding a region to a pattern puts it behind those that are there, and
/// changes nothing else.
pub proof fn a_region_is_added(p: PatternView, r: Region)
    ensures
        opened_up(
            p.in_regions,
            p.in_regions.len() as int,
            r,
            with_in_region(r)(p).in_regions,
        ),
        (PatternView { in_regions: p.in_regions, ..with_in_region(r)(p) }) == p,
        opened_up(
            p.out_regions,
            p.out_regions.len() as int,
            r,
            with_out_region(r)(p).out_regions,
        ),
        (PatternView { out_regions: p.out_regions, ..with_out_region(r)(p) }) == p,
{
}

/// Removing a region that was just added gives back the tree.
pub proof fn removing_an_added_region_restores(v: ProjectView, u: Uuid, r: Region)
    ensures
        v.find_pattern(u) matches Some((a, (p, (m, (s, t))))) ==> {
            let x = v.assets[a].pages[p].modules[m].sections[s].patterns[t];
            &&& v.edit_pattern(u, with_in_region(r)).edit_pattern(
                u,
                without_in_region(x.in_regions.len() as int),
            ) == v
            &&& v.edit_pattern(u, with_out_region(r)).edit_pattern(
                u,
                without_out_region(x.out_regions.len() as int),
            ) == v
        },
{
    if let Some((a, (p, (m, (s, t))))) = v.find_pattern(u) {
        let x = v.assets[a].pages[p].modules[m].sections[s].patterns[t];
        lemma_found_pattern(v, u);
        let i = x.in_regions.len() as int;
        let o = x.out_regions.len() as int;
        edits_compose(v, u, with_in_region(r), without_in_region(i));
        edits_compose(v, u, with_out_region(r), without_out_region(o));
        assert(x.in_regions.push(r).remove(i) =~= x.in_regions);
        assert(x.out_regions.push(r).remove(o) =~= x.out_regions);
        lemma_same_pattern(v, a, p, m, s, t);
    }
}

proof fn lemma_same_pattern(v: ProjectView, a: int, p: int, m: int, s: int, t: int)
    requires
        v.pattern_at(a, p, m, s, t) is Some,
    ensures
        v.with_pattern(a, p, m, s, t, v.pattern_at(a, p, m, s, t)->0) == v,
{
    let x = v.assets[a];
    let y = x.pages[p];
    let z = y.modules[m];
    let w = z.sections[s];
    assert(w.patterns.update(t, w.patterns[t]) =~= w.patterns);
    assert(z.sections.update(s, w) =~= z.sections);
    assert(y.modules.update(m, z) =~= y.modules);
    assert(x.pages.update(p, y) =~= x.pages);
    assert(v.assets.update(a, x) =~= v.assets);
}

/// Enabling, marking, renaming and looping a pattern sets what is asked for and
/// nothing else. A blank name is not taken.
pub proof fn settings_change_one_thing(
    p: PatternView,
    on: bool,
    name: Seq<char>,
    start: u64,
    end: u64,
    looping: bool,
    xfade: u64,
    xoffset: i64,
)
    ensures
        enabled_as(on)(p).enabled == on,
        (PatternView { enabled: p.enabled, ..enabled_as(on)(p) }) == p,
        enabled_flipped()(p).enabled != p.enabled,
        (PatternView { enabled: p.enabled, ..enabled_flipped()(p) }) == p,
        ref_edit_as(on)(p).ref_edit == on,
        (PatternView { ref_edit: p.ref_edit, ..ref_edit_as(on)(p) }) == p,
        ref_edit_flipped()(p).ref_edit != p.ref_edit,
        (PatternView { ref_edit: p.ref_edit, ..ref_edit_flipped()(p) }) == p,
        !blank(name) ==> renamed(name)(p).id == name,
        blank(name) ==> renamed(name)(p).id == "Pattern"@,
        (PatternView { id: p.id, ..renamed(name)(p) }) == p,
        ({
            let q = looped(start, end, looping, xfade, xoffset)(p);
            &&& q.loop_start == start && q.loop_end == end && q.looping == looping && q.xfade
                == xfade && q.xoffset == xoffset
            &&& (PatternView {
                loop_start: p.loop_start,
                loop_end: p.loop_end,
                looping: p.looping,
                xfade: p.xfade,
                xoffset: p.xoffset,
                ..q
            }) == p
        }),
{
}

/// An edit of a pattern changes that pattern as it says, and leaves every other
/// node where and as it is. Without the pattern nothing changes.
pub proof fn an_edit_touches_one_pattern(
    v: ProjectView,
    u: Uuid,
    f: spec_fn(PatternView) -> PatternView,
)
    ensures
        v.find_pattern(u) is None ==> v.edit_pattern(u, f) == v,
        v.find_pattern(u) matches Some((a, (p, (m, (s, t))))) ==> {
            let w = v.edit_pattern(u, f);
            let (x, x2) = (v.assets[a], w.assets[a]);
            let (y, y2) = (x.pages[p], x2.pages[p]);
            let (z, z2) = (y.modules[m], y2.modules[m]);
            let (q, q2) = (z.sections[s], z2.sections[s]);
            &&& q2.patterns[t] == f(q.patterns[t])
            &&& differs_at(v.assets, a, w.assets)
            &&& differs_at(x.pages, p, x2.pages) && (AssetView { pages: x.pages, ..x2 }) == x
            &&& differs_at(y.modules, m, y2.modules) && (PageView { modules: y.modules, ..y2 }) == y
            &&& differs_at(z.sections, s, z2.sections) && (ModuleView {
                sections: z.sections,
                ..z2
            }) == z
            &&& differs_at(q.patterns, t, q2.patterns) && (SectionView {
                patterns: q.patterns,
                ..q2
            }) == q
        },
{
    lemma_found_pattern(v, u);
}

// Looking up.

/// An asset that is there is found, by the first place where its identity is.
pub proof fn assets_are_found(v: ProjectView, a: int)
    requires
        v.asset_at(a) is Some,
    ensures
        v.find_asset(v.assets[a].uuid) matches Some(b) && 0 <= b <= a && v.assets[b].uuid
            == v.assets[a].uuid,
{
    let f = asset_is(v.assets[a].uuid);
    lemma_first_index_found(v.assets, f);
    if v.find_asset(v.assets[a].uuid) is None {
        assert(!f(v.assets[a]));
    }
}

/// A page that is there is found, by the first place in reading order where
/// its identity is.
pub proof fn pages_are_found(v: ProjectView, a: int, p: int)
    requires
        v.page_at(a, p) is Some,
    ensures
        v.find_page(v.assets[a].pages[p].uuid) matches Some((b, q)) && (b < a || (b == a && q <= p))
            && (v.page_at(b, q) matches Some(x) && x.uuid == v.assets[a].pages[p].uuid),
{
    let u = v.assets[a].pages[p].uuid;
    lemma_index_first(v.assets[a].pages, page_is(u), p);
    lemma_hit_first(v.assets, page_in_asset(u), a);
    lemma_found_page(v, u);
}

/// A module that is there is found, by the first place in reading order where
/// its identity is.
pub proof fn modules_are_found(v: ProjectView, a: int, p: int, m: int)
    requires
        v.module_at(a, p, m) is Some,
    ensures
        ({
            let u = v.assets[a].pages[p].modules[m].uuid;
            v.find_module(u) matches Some((b, (q, n))) && (b < a || (b == a && (q < p || (q == p && n
                <= m)))) && (v.module_at(b, q, n) matches Some(x) && x.uuid == u)
        }),
{
    let u = v.assets[a].pages[p].modules[m].uuid;
    lemma_index_first(v.assets[a].pages[p].modules, module_is(u), m);
    lemma_hit_first(v.assets[a].pages, module_in_page(u), p);
    lemma_hit_first(v.assets, module_in_asset(u), a);
    lemma_found_module(v, u);
}

/// A section that is there is found, by the first place in reading order where
/// its identity is.
pub proof fn sections_are_found(v: ProjectView, a: int, p: int, m: int, s: int)
    requires
        v.section_at(a, p, m, s) is Some,
    ensures
        ({
            let u = v.assets[a].pages[p].modules[m].sections[s].uuid;
            v.find_section(u) matches Some((b, (q, (n, t)))) && (b < a || (b == a && (q < p || (q == p
                && (n < m || (n == m && t <= s)))))) && (v.section_at(b, q, n, t) matches Some(x)
                && x.uuid == u)
        }),
{
    let u = v.assets[a].pages[p].modules[m].sections[s].uuid;
    lemma_index_first(v.assets[a].pages[p].modules[m].sections, section_is(u), s);
    lemma_hit_first(v.assets[a].pages[p].modules, section_in_module(u), m);
    lemma_hit_first(v.assets[a].pages, section_in_page(u), p);
    lemma_hit_first(v.assets, section_in_asset(u), a);
    lemma_found_section(v, u);
}

/// A pattern that is there is found, by the first place in reading order where
/// its identity is.
pub proof fn patterns_are_found(v: ProjectView, a: int, p: int, m: int, s: int, t: int)
    requires
        v.pattern_at(a, p, m, s, t) is Some,
    ensures
        ({
            let u = v.assets[a].pages[p].modules[m].sections[s].patterns[t].uuid;
            v.find_pattern(u) matches Some((b, (q, (n, (k, l))))) && (b < a || (b == a && (q < p || (q
                == p && (n < m || (n == m && (k < s || (k == s && l <= t)))))))) && (v.pattern_at(
                b,
                q,
                n,
                k,
                l,
            ) matches Some(x) && x.uuid == u)
        }),
{
    let u = v.assets[a].pages[p].modules[m].sections[s].patterns[t].uuid;
    lemma_index_first(v.assets[a].pages[p].modules[m].sections[s].patterns, pattern_is(u), t);
    lemma_hit_first(v.assets[a].pages[p].modules[m].sections, pattern_in_section(u), s);
    lemma_hit_first(v.assets[a].pages[p].modules, pattern_in_module(u), m);
    lemma_hit_first(v.assets[a].pages, pattern_in_page(u), p);
    lemma_hit_first(v.assets, pattern_in_asset(u), a);
    lemma_found_pattern(v, u);
}

proof fn lemma_index_first<T>(s: Seq<T>, f: spec_fn(T) -> bool, i: int)
    requires
        0 <= i < s.len(),
        f(s[i]),
    ensures
        first_index(s, f) matches Some(k) && 0 <= k <= i,
{
    lemma_first_index_found(s, f);
    if first_index(s, f) is None {
        assert(!f(s[i]));
    }
}

proof fn lemma_hit_first<T, R>(s: Seq<T>, f: spec_fn(T) -> Option<R>, i: int)
    requires
        0 <= i < s.len(),
        f(s[i]) is Some,
    ensures
        first_hit(s, f) matches Some((k, r)) && 0 <= k <= i && f(s[k]) == Some(r),
{
    lemma_first_hit_found(s, f);
    if first_hit(s, f) is None {
        assert(f(s[i]) is None);
    }
}

/// All patterns are collected in reading order: those of a node are those of
/// its children, one child after the other, and those of a section are its own.
pub proof fn patterns_are_collected_in_order(
    v: ProjectView,
    w: ProjectView,
    a: AssetView,
    b: AssetView,
    p: PageView,
    q: PageView,
    m: ModuleView,
    n: ModuleView,
    s: SectionView,
)
    ensures
        (ProjectView { assets: v.assets + w.assets }).all_patterns() == v.all_patterns()
            + w.all_patterns(),
        (ProjectView { assets: seq![AssetView { pages: a.pages + b.pages, ..a }] }).all_patterns()
            == (ProjectView { assets: seq![a, b] }).all_patterns(),
        patterns_of_page()(PageView { modules: p.modules + q.modules, ..p }) == patterns_of_page()(
            p,
        ) + patterns_of_page()(q),
        patterns_of_module()(ModuleView { sections: m.sections + n.sections, ..m })
            == patterns_of_module()(m) + patterns_of_module()(n),
        patterns_of_module()(ModuleView { sections: seq![s], ..m }) == s.patterns,
        patterns_of_page()(PageView { modules: seq![m], ..p }) == patterns_of_module()(m),
        patterns_of_asset()(AssetView { pages: seq![p], ..a }) == patterns_of_page()(p),
        (ProjectView { assets: seq![a] }).all_patterns() == patterns_of_asset()(a),
{
    lemma_flat_add(v.assets, w.assets, patterns_of_asset());
    lemma_flat_add(a.pages, b.pages, patterns_of_page());
    lemma_flat_add(seq![a], seq![b], patterns_of_asset());
    assert(seq![a] + seq![b] =~= seq![a, b]);
    lemma_flat_one(AssetView { pages: a.pages + b.pages, ..a }, patterns_of_asset());
    lemma_flat_one(a, patterns_of_asset());
    lemma_flat_one(b, patterns_of_asset());
    lemma_flat_add(p.modules, q.modules, patterns_of_module());
    lemma_flat_add(m.sections, n.sections, patterns_of_section());
    lemma_flat_one(s, patterns_of_section());
    lemma_flat_one(m, patterns_of_module());
    lemma_flat_one(p, patterns_of_page());
}

proof fn lemma_flat_one<T, R>(x: T, f: spec_fn(T) -> Seq<R>)
    ensures
        flat(seq![x], f) == f(x),
{
    assert(seq![x].drop_last() =~= Seq::empty());
    assert(flat(seq![x].drop_last(), f) =~= Seq::empty());
    assert(flat(seq![x], f) =~= f(x));
}

proof fn lemma_flat_add<T, R>(s: Seq<T>, t: Seq<T>, f: spec_fn(T) -> Seq<R>)
    ensures
        flat(s + t, f) == flat(s, f) + flat(t, f),
    decreases t.len(),
{
    if t.len() > 0 {
        lemma_flat_add(s, t.drop_last(), f);
        assert((s + t).drop_last() =~= s + t.drop_last());
        assert(flat(s + t, f) =~= flat(s, f) + flat(t, f));
    } else {
        assert(s + t =~= s);
        assert(flat(s + t, f) =~= flat(s, f) + flat(t, f));
    }
}

/// The contents that pages and modules refer to are counted one by one.
pub proof fn content_is_counted_by_node(c: Uuid, p: PageView, m: ModuleView, a: AssetView)
    ensures
        module_refs(c)(m) == if m.content_uuid == c {
            1nat
        } else {
            0
        },
        page_refs(c)(PageView { modules: Seq::empty(), ..p }) == if p.content_uuid == c {
            1nat
        } else {
            0
        },
        page_refs(c)(PageView { modules: p.modules.push(m), ..p }) == page_refs(c)(p)
            + module_refs(c)(m),
        asset_refs(c)(AssetView { pages: a.pages.push(p), ..a }) == asset_refs(c)(a) + page_refs(
            c,
        )(p),
        asset_refs(c)(AssetView { pages: Seq::empty(), ..a }) == 0,
        (ProjectView { assets: seq![a] }).content_refs(c) == asset_refs(c)(a),
{
    assert(p.modules.push(m).drop_last() =~= p.modules);
    assert(a.pages.push(p).drop_last() =~= a.pages);
    assert(seq![a].drop_last() =~= Seq::empty());
    assert(total(seq![a].drop_last(), asset_refs(c)) == 0);
}

/// In a whole tree no asset, page or module is empty, and the sections of every
/// module are in order.
pub proof fn whole_trees_have_no_empty_node(
    v: ProjectView,
    a: int,
    p: int,
    m: int,
    i: int,
    j: int,
)
    requires
        v.well_formed(),
    ensures
        v.asset_at(a) is Some ==> v.assets[a].pages.len() > 0,
        v.page_at(a, p) is Some ==> v.assets[a].pages[p].modules.len() > 0,
        v.module_at(a, p, m) is Some ==> {
            let s = v.assets[a].pages[p].modules[m].sections;
            &&& s.len() > 0
            &&& 0 <= i < j < s.len() ==> s[i].kind.order() <= s[j].kind.order()
        },
{
    if v.asset_at(a) is Some {
        assert(asset_ok(v.assets[a]));
        if v.page_at(a, p) is Some {
            assert(page_ok(v.assets[a].pages[p]));
            if v.module_at(a, p, m) is Some {
                assert(module_ok(v.assets[a].pages[p].modules[m]));
            }
        }
    }
}

/// A node may be deleted where it is there and has a sibling.
pub proof fn only_children_stay(v: ProjectView, u: Uuid)
    ensures
        v.asset_deletable(u) <==> v.find_asset(u) is Some && v.assets.len() >= 2,
        v.find_page(u) is None ==> !v.page_deletable(u),
        v.find_page(u) matches Some((a, p)) ==> (v.page_deletable(u) <==> v.assets[a].pages.len()
            >= 2),
        v.find_module(u) is None ==> !v.module_deletable(u),
        v.find_module(u) matches Some((a, (p, m))) ==> (v.module_deletable(u)
            <==> v.assets[a].pages[p].modules.len() >= 2),
        v.find_section(u) is None ==> !v.section_deletable(u),
        v.find_section(u) matches Some((a, (p, (m, s)))) ==> (v.section_deletable(u)
            <==> v.assets[a].pages[p].modules[m].sections.len() >= 2),
{
}

// Adding, copying and deleting nodes.

/// Deleting a node takes it out of its parent, those behind it moving up, and
/// leaves the rest of the tree alone.
pub proof fn a_node_is_deleted(v: ProjectView, a: int, p: int, m: int, s: int, t: int)
    ensures
        v.asset_at(a) is Some ==> closed_up(v.assets, a, without_asset(v, a).assets),
        v.page_at(a, p) is Some ==> {
            let x = v.assets[a];
            let y = without_page(v, a, p).assets[a];
            &&& closed_up(x.pages, p, y.pages)
            &&& (AssetView { pages: x.pages, ..y }) == x
            &&& differs_at(v.assets, a, without_page(v, a, p).assets)
        },
        v.module_at(a, p, m) is Some ==> {
            let w = without_module(v, a, p, m);
            let x = v.assets[a].pages[p];
            let y = w.assets[a].pages[p];
            &&& closed_up(x.modules, m, y.modules)
            &&& (PageView { modules: x.modules, ..y }) == x
            &&& w == v.with_page(a, p, y)
        },
        v.section_at(a, p, m, s) is Some ==> {
            let w = without_section(v, a, p, m, s);
            let x = v.assets[a].pages[p].modules[m];
            let y = w.assets[a].pages[p].modules[m];
            &&& closed_up(x.sections, s, y.sections)
            &&& (ModuleView { sections: x.sections, ..y }) == x
            &&& w == v.with_module(a, p, m, y)
        },
        v.pattern_at(a, p, m, s, t) is Some ==> {
            let w = without_pattern(v, a, p, m, s, t);
            let x = v.assets[a].pages[p].modules[m].sections[s];
            let y = w.assets[a].pages[p].modules[m].sections[s];
            &&& closed_up(x.patterns, t, y.patterns)
            &&& (SectionView { patterns: x.patterns, ..y }) == x
            &&& w == v.with_section(a, p, m, s, y)
        },
{
}

/// Replacing a node leaves every other one where and as it is.
pub proof fn a_node_is_replaced(
    v: ProjectView,
    a: int,
    p: int,
    m: int,
    s: int,
    w: AssetView,
    x: PageView,
    y: ModuleView,
    z: SectionView,
)
    ensures
        v.asset_at(a) is Some ==> v.with_asset(a, w).assets[a] == w && differs_at(
            v.assets,
            a,
            v.with_asset(a, w).assets,
        ),
        v.page_at(a, p) is Some ==> {
            let n = v.with_page(a, p, x);
            &&& differs_at(v.assets, a, n.assets)
            &&& n.assets[a].pages[p] == x && differs_at(v.assets[a].pages, p, n.assets[a].pages)
            &&& (AssetView { pages: v.assets[a].pages, ..n.assets[a] }) == v.assets[a]
        },
        v.module_at(a, p, m) is Some ==> {
            let n = v.with_module(a, p, m, y);
            let (o, q) = (v.assets[a].pages[p], n.assets[a].pages[p]);
            &&& q.modules[m] == y && differs_at(o.modules, m, q.modules)
            &&& (PageView { modules: o.modules, ..q }) == o
            &&& n == v.with_page(a, p, q)
        },
        v.section_at(a, p, m, s) is Some ==> {
            let n = v.with_section(a, p, m, s, z);
            let (o, q) = (v.assets[a].pages[p].modules[m], n.assets[a].pages[p].modules[m]);
            &&& q.sections[s] == z && differs_at(o.sections, s, q.sections)
            &&& (ModuleView { sections: o.sections, ..q }) == o
            &&& n == v.with_module(a, p, m, q)
        },
{
}

/// A node that is put in stands where it was put, right behind the given one or
/// at the end, and the rest of the tree is left alone.
pub proof fn a_node_is_put_in(
    v: ProjectView,
    a: int,
    p: int,
    m: int,
    s: int,
    t: int,
    x: PageView,
    y: ModuleView,
    z: PatternView,
)
    ensures
        v.asset_at(a) is Some ==> {
            let w = with_page_added(v, a, x);
            &&& opened_up(v.assets[a].pages, v.assets[a].pages.len() as int, x, w.assets[a].pages)
            &&& (AssetView { pages: v.assets[a].pages, ..w.assets[a] }) == v.assets[a]
            &&& differs_at(v.assets, a, w.assets)
        },
        v.page_at(a, p) is Some ==> {
            let w = with_page_after(v, (a, p), x);
            &&& opened_up(v.assets[a].pages, p + 1, x, w.assets[a].pages)
            &&& (AssetView { pages: v.assets[a].pages, ..w.assets[a] }) == v.assets[a]
            &&& differs_at(v.assets, a, w.assets)
        },
        v.module_at(a, p, m) is Some ==> {
            let w = with_module_after(v, (a, (p, m)), y);
            let (o, q) = (v.assets[a].pages[p], w.assets[a].pages[p]);
            &&& opened_up(o.modules, m + 1, y, q.modules)
            &&& (PageView { modules: o.modules, ..q }) == o
            &&& w == v.with_page(a, p, q)
        },
        v.section_at(a, p, m, s) is Some && 0 <= t
            <= v.assets[a].pages[p].modules[m].sections[s].patterns.len() ==> {
            let w = with_pattern_at(v, (a, (p, (m, s))), t, z);
            let o = v.assets[a].pages[p].modules[m].sections[s];
            let q = w.assets[a].pages[p].modules[m].sections[s];
            &&& opened_up(o.patterns, t, z, q.patterns)
            &&& (SectionView { patterns: o.patterns, ..q }) == o
            &&& w == v.with_section(a, p, m, s, q)
        },
{
}

/// Sorting sections by kind keeps those of each kind in their order.
pub proof fn sorting_keeps_each_kind(s: Seq<SectionView>, kind: SectionKind)
    ensures
        by_kind(s).filter(kind_is(kind)) == s.filter(kind_is(kind)),
{
    let i = s.filter(kind_is(SectionKind::Intro));
    let m = s.filter(kind_is(SectionKind::Main));
    let o = s.filter(kind_is(SectionKind::Outro));
    lemma_filter_one_kind(s, SectionKind::Intro, kind);
    lemma_filter_one_kind(s, SectionKind::Main, kind);
    lemma_filter_one_kind(s, SectionKind::Outro, kind);
    Seq::filter_distributes_over_add(i + m, o, kind_is(kind));
    Seq::filter_distributes_over_add(i, m, kind_is(kind));
    assert(by_kind(s).filter(kind_is(kind)) =~= s.filter(kind_is(kind)));
}

proof fn lemma_filter_one_kind(s: Seq<SectionView>, kind: SectionKind, other: SectionKind)
    ensures
        s.filter(kind_is(kind)).filter(kind_is(other)) =~= if kind == other {
            s.filter(kind_is(kind))
        } else {
            Seq::empty()
        },
    decreases s.len(),
{
    reveal(Seq::filter);
    if s.len() > 0 {
        lemma_filter_one_kind(s.drop_last(), kind, other);
        let t = s.drop_last().filter(kind_is(kind));
        if kind_is(kind)(s.last()) {
            assert(t.push(s.last()).drop_last() =~= t);
        }
    }
}

/// Putting `copy` in as a section leaves it right behind section `s` of its
/// module, and leaves the rest of the tree alone.
pub open spec fn put_behind(
    v: ProjectView,
    a: int,
    p: int,
    m: int,
    s: int,
    copy: SectionView,
) -> bool {
    let w = with_section_after(v, (a, (p, (m, s))), copy);
    let (o, q) = (v.assets[a].pages[p].modules[m], w.assets[a].pages[p].modules[m]);
    &&& opened_up(o.sections, s + 1, copy, q.sections)
    &&& (ModuleView { sections: o.sections, ..q }) == o
    &&& w == v.with_module(a, p, m, q)
}

/// A duplicated section stands right behind the original in a tree whose
/// sections are in order.
pub proof fn a_duplicated_section_stands_behind(
    v: ProjectView,
    a: int,
    p: int,
    m: int,
    s: int,
    copy: SectionView,
)
    requires
        v.well_formed(),
        v.section_at(a, p, m, s) matches Some(x) && x.kind == copy.kind,
    ensures
        put_behind(v, a, p, m, s, copy),
{
    let o = v.assets[a].pages[p].modules[m].sections;
    lemma_in_order(v, a, p, m);
    lemma_behind_its_kind(o, s, copy);
    lemma_put_behind(v, a, p, m, s, copy);
}

proof fn lemma_put_behind(v: ProjectView, a: int, p: int, m: int, s: int, copy: SectionView)
    requires
        v.section_at(a, p, m, s) is Some,
        ({
            let o = v.assets[a].pages[p].modules[m].sections;
            opened_up(o, s + 1, copy, by_kind(o.insert(s + 1, copy)))
        }),
    ensures
        put_behind(v, a, p, m, s, copy),
{
}

proof fn lemma_in_order(v: ProjectView, a: int, p: int, m: int)
    requires
        v.well_formed(),
        v.module_at(a, p, m) is Some,
    ensures
        canonical(v.assets[a].pages[p].modules[m].sections),
{
    assert(asset_ok(v.assets[a]));
    assert(page_ok(v.assets[a].pages[p]));
    assert(module_ok(v.assets[a].pages[p].modules[m]));
}

proof fn lemma_behind_its_kind(o: Seq<SectionView>, s: int, copy: SectionView)
    requires
        canonical(o),
        0 <= s < o.len(),
        o[s].kind == copy.kind,
    ensures
        opened_up(o, s + 1, copy, by_kind(o.insert(s + 1, copy))),
{
    let t = o.insert(s + 1, copy);
    assert(opened_up(o, s + 1, copy, t));
    lemma_order_kept(o, s, copy);
    lemma_by_kind_canonical(t);
}

proof fn lemma_order_kept(o: Seq<SectionView>, s: int, copy: SectionView)
    requires
        canonical(o),
        0 <= s < o.len(),
        o[s].kind == copy.kind,
    ensures
        canonical(o.insert(s + 1, copy)),
{
    let t = o.insert(s + 1, copy);
    assert forall|i: int, j: int| 0 <= i <= j < t.len() implies (#[trigger] t[i]).kind.order() <= (
    #[trigger] t[j]).kind.order() by {
        let i2 = if i <= s {
            i
        } else {
            i - 1
        };
        let j2 = if j <= s {
            j
        } else {
            j - 1
        };
        assert(t[i].kind == o[i2].kind);
        assert(t[j].kind == o[j2].kind);
    }
}

/// Sorting the sections of the whole tree sorts those of each module and
/// changes nothing else.
pub proof fn only_sections_are_sorted(v: ProjectView, a: int, p: int, m: int)
    ensures
        v.normalized().assets.len() == v.assets.len(),
        v.asset_at(a) is Some ==> {
            let x = v.normalized().assets[a];
            &&& x.pages.len() == v.assets[a].pages.len()
            &&& (AssetView { pages: v.assets[a].pages, ..x }) == v.assets[a]
        },
        v.page_at(a, p) is Some ==> {
            let x = v.normalized().assets[a].pages[p];
            &&& x.modules.len() == v.assets[a].pages[p].modules.len()
            &&& (PageView { modules: v.assets[a].pages[p].modules, ..x }) == v.assets[a].pages[p]
        },
        v.module_at(a, p, m) is Some ==> {
            let o = v.assets[a].pages[p].modules[m];
            let x = v.normalized().assets[a].pages[p].modules[m];
            &&& (ModuleView { sections: o.sections, ..x }) == o
            &&& x.sections.to_multiset() == o.sections.to_multiset()
            &&& canonical(x.sections)
        },
{
    if v.module_at(a, p, m) is Some {
        lemma_by_kind(v.assets[a].pages[p].modules[m].sections);
    }
}

/// A section that was added keeps the others of every kind in their order, and
/// comes behind all of its own kind. The rest of the tree is left alone.
pub proof fn an_added_section_is_last_of_its_kind(
    v: ProjectView,
    a: int,
    p: int,
    m: int,
    x: SectionView,
    kind: SectionKind,
)
    requires
        v.module_at(a, p, m) is Some,
    ensures
        ({
            let w = with_section_added(v, (a, (p, m)), x);
            let (o, q) = (v.assets[a].pages[p].modules[m], w.assets[a].pages[p].modules[m]);
            &&& canonical(q.sections)
            &&& q.sections.filter(kind_is(kind)) == if kind == x.kind {
                o.sections.filter(kind_is(kind)).push(x)
            } else {
                o.sections.filter(kind_is(kind))
            }
            &&& (ModuleView { sections: o.sections, ..q }) == o
            &&& w == v.with_module(a, p, m, q)
        }),
{
    let o = v.assets[a].pages[p].modules[m].sections;
    sorting_keeps_each_kind(o.push(x), kind);
    lemma_by_kind(o.push(x));
    lemma_filter_push(o, kind_is(kind), x);
}

/// A section is called by its kind where it is the only one of it. Otherwise a
/// number is added that is one more than its siblings of that kind before it.
pub proof fn sections_are_numbered_within_their_kind(v: ProjectView, u: Uuid)
    ensures
        v.find_section(u) is None ==> v.section_label(u).len() == 0,
        v.find_section(u) matches Some((a, (p, (m, s)))) ==> {
            let all = v.assets[a].pages[p].modules[m].sections;
            let kind = all[s].kind;
            let before = all.take(s).filter(kind_is(kind)).len();
            let behind = all.skip(s + 1).filter(kind_is(kind)).len();
            v.section_label(u) == if before == 0 && behind == 0 {
                kind.label_text()
            } else {
                kind.label_text() + seq![' '] + decimal_text(before + 1)
            }
        },
{
    lemma_found_section(v, u);
    if let Some((a, (p, (m, s)))) = v.find_section(u) {
        let all = v.assets[a].pages[p].modules[m].sections;
        let f = kind_is(all[s].kind);
        lemma_filter_push(all.take(s), f, all[s]);
        assert(all.take(s + 1) =~= all.take(s).push(all[s]));
        assert(all =~= all.take(s + 1) + all.skip(s + 1));
        Seq::filter_distributes_over_add(all.take(s + 1), all.skip(s + 1), f);
        let l = all[s].kind.label_text();
        assert(l.push(' ') =~= l + seq![' ']);
    }
}

// New nodes and copies.

/// New nodes are named as asked, are their own content, and hold one empty Main
/// section at the bottom.
pub proof fn new_nodes_are_seeded(
    a: AssetView,
    p: PageView,
    m: ModuleView,
    v: ProjectView,
    id: Seq<char>,
    u: Uuid,
    kind: SectionKind,
)
    ensures
        seeded_module(m, id) ==> {
            &&& m.id == id && m.content_uuid == m.uuid
            &&& m.sections.len() == 1 && m.sections[0].kind == SectionKind::Main
            &&& m.sections[0].patterns.len() == 0
        },
        seeded_page(p, id) ==> {
            &&& p.id == id && p.content_uuid == p.uuid
            &&& p.modules.len() == 1 && p.modules[0].id == "Module 1"@
            &&& p.modules[0].content_uuid == p.modules[0].uuid
            &&& p.modules[0].sections.len() == 1
            &&& p.modules[0].sections[0].kind == SectionKind::Main
        },
        seeded_asset(a, id) ==> {
            &&& a.id == id
            &&& a.pages.len() == 1 && a.pages[0].id == "Page 1"@
            &&& a.pages[0].modules.len() == 1
            &&& a.meta.asset_type == AssetType::Music && a.meta.production_code.len() == 0
        },
        default_project(v) ==> v.assets.len() == 1 && v.assets[0].id == "Asset 1"@,
        ({
            let x = empty_section(u, kind);
            x.uuid == u && x.kind == kind && x.patterns.len() == 0 && x.name.len() == 0
        }),
        ({
            let x = empty_pattern(u, id);
            &&& x.uuid == u && x.id == id && x.enabled && !x.ref_edit && x.looping
            &&& x.loop_start == 0 && x.loop_end == 0 && x.xfade == 0 && x.xoffset == 0
            &&& x.clip_source is None && x.in_regions.len() == 0 && x.out_regions.len() == 0
            &&& x.channel_strip.volume == (Real32 { bits: ONE_BITS })
            &&& x.channel_strip.pan == (Real32 { bits: HALF_BITS })
            &&& x.channel_strip.width == (Real32 { bits: ONE_BITS })
        }),
        ({
            let x = empty_module(u, id);
            x.uuid == u && x.content_uuid == u && x.id == id && x.base_name == "Module"@
                && x.sections.len() == 0
        }),
        ({
            let x = empty_page(u, id);
            x.uuid == u && x.content_uuid == u && x.id == id && x.modules.len() == 0
        }),
        ({
            let x = empty_asset(u, id);
            &&& x.uuid == u && x.id == id && x.pages.len() == 0
            &&& x.meta.production_code.len() == 0 && x.meta.variant_name.len() == 0
            &&& x.meta.asset_name.len() == 0 && x.meta.description.len() == 0
            &&& x.meta.tags.len() == 0 && x.meta.asset_type == AssetType::Music
        }),
{
}

/// A copy differs from the original in its identities alone, down to its
/// patterns. It shares the content, or is content of its own.
pub proof fn copies_differ_in_identity_alone(
    orig: PageView,
    copy: PageView,
    regen: bool,
    m: int,
    s: int,
    t: int,
)
    requires
        fresh_page(orig, copy, regen),
    ensures
        copy.id == orig.id,
        copy.content_uuid == if regen {
            copy.uuid
        } else {
            orig.content_uuid
        },
        copy.modules.len() == orig.modules.len(),
        0 <= m < orig.modules.len() ==> {
            let (x, y) = (orig.modules[m], copy.modules[m]);
            &&& y.content_uuid == if regen {
                y.uuid
            } else {
                x.content_uuid
            }
            &&& y.sections.len() == x.sections.len()
            &&& (ModuleView {
                uuid: x.uuid,
                content_uuid: x.content_uuid,
                sections: x.sections,
                ..y
            }) == x
            &&& 0 <= s < x.sections.len() ==> {
                let (q, r) = (x.sections[s], y.sections[s]);
                &&& r.patterns.len() == q.patterns.len()
                &&& (SectionView { uuid: q.uuid, patterns: q.patterns, ..r }) == q
                &&& 0 <= t < q.patterns.len() ==> (PatternView {
                    uuid: q.patterns[t].uuid,
                    ..r.patterns[t]
                }) == q.patterns[t]
            }
        },
{
    if 0 <= m < orig.modules.len() {
        let (x, y) = (orig.modules[m], copy.modules[m]);
        assert(fresh_module(x, y, regen));
        if 0 <= s < x.sections.len() {
            assert(fresh_section(x.sections[s], y.sections[s]));
            if 0 <= t < x.sections[s].patterns.len() {
                assert(fresh_pattern(x.sections[s].patterns[t], y.sections[s].patterns[t]));
            }
        }
    }
}

/// The identities below a node are its own and those of everything below it.
pub proof fn identities_are_those_below(
    a: AssetView,
    p: PageView,
    m: ModuleView,
    s: SectionView,
    u: Uuid,
)
    ensures
        section_uuids()(s).len() == 1 + s.patterns.len(),
        section_uuids()(s)[0] == s.uuid,
        forall|t: int|
            0 <= t < s.patterns.len() ==> section_uuids()(s)[1 + t] == (
            #[trigger] s.patterns[t]).uuid,
        module_uuids()(m).contains(u) <==> u == m.uuid || exists|i: int|
            0 <= i < m.sections.len() && (#[trigger] section_uuids()(m.sections[i])).contains(u),
        page_uuids()(p).contains(u) <==> u == p.uuid || exists|i: int|
            0 <= i < p.modules.len() && (#[trigger] module_uuids()(p.modules[i])).contains(u),
        asset_uuids()(a).contains(u) <==> u == a.uuid || exists|i: int|
            0 <= i < a.pages.len() && (#[trigger] page_uuids()(a.pages[i])).contains(u),
{
    lemma_head_contains(m.uuid, m.sections, section_uuids(), u);
    lemma_head_contains(p.uuid, p.modules, module_uuids(), u);
    lemma_head_contains(a.uuid, a.pages, page_uuids(), u);
}

proof fn lemma_head_contains<T>(head: Uuid, s: Seq<T>, f: spec_fn(T) -> Seq<Uuid>, u: Uuid)
    ensures
        (seq![head] + flat(s, f)).contains(u) <==> u == head || exists|i: int|
            0 <= i < s.len() && (#[trigger] f(s[i])).contains(u),
{
    let all = seq![head] + flat(s, f);
    crate::seqs::lemma_flat_contains(s, f, u);
    if flat(s, f).contains(u) {
        let k = choose|k: int| 0 <= k < flat(s, f).len() && flat(s, f)[k] == u;
        assert(all[1 + k] == u);
    }
    if u == head {
        assert(all[0] == u);
    }
    if all.contains(u) {
        let k = choose|k: int| 0 <= k < all.len() && all[k] == u;
        if k > 0 {
            assert(flat(s, f)[k - 1] == u);
        }
    }
}

/// A node that is given identities has just these, in the order of its nodes,
/// each before what is below it.
pub proof fn given_identities_are_taken(
    p: PageView,
    m: ModuleView,
    s: SectionView,
    ids: Seq<Uuid>,
    regen: bool,
)
    ensures
        ids.len() == section_size()(s) ==> section_uuids()(section_named(s, ids)) == ids,
        ids.len() == module_size()(m) ==> module_uuids()(module_named(m, ids, regen)) == ids,
        ids.len() == page_size()(p) ==> page_uuids()(page_named(p, ids, regen)) == ids,
{
    if ids.len() == section_size()(s) {
        lemma_section_takes(s, ids);
    }
    if ids.len() == module_size()(m) {
        lemma_module_takes(m, ids, regen);
    }
    if ids.len() == page_size()(p) {
        let named = page_named(p, ids, regen);
        lemma_named_modules(p.modules, named.modules, ids, regen, p.modules.len() as int);
        assert(p.modules.take(p.modules.len() as int) =~= p.modules);
        assert(named.modules.take(p.modules.len() as int) =~= named.modules);
        assert(page_uuids()(named) =~= ids);
    }
}

proof fn lemma_section_takes(s: SectionView, ids: Seq<Uuid>)
    requires
        ids.len() >= section_size()(s),
    ensures
        section_uuids()(section_named(s, ids)) == ids.take(section_size()(s) as int),
{
    assert(section_uuids()(section_named(s, ids)) =~= ids.take(section_size()(s) as int));
    if ids.len() == section_size()(s) {
        assert(ids.take(section_size()(s) as int) =~= ids);
    }
}

proof fn lemma_module_takes(m: ModuleView, ids: Seq<Uuid>, regen: bool)
    requires
        ids.len() >= module_size()(m),
    ensures
        module_uuids()(module_named(m, ids, regen)) == ids.take(module_size()(m) as int),
        ids.len() == module_size()(m) ==> module_uuids()(module_named(m, ids, regen)) == ids,
{
    let named = module_named(m, ids, regen);
    lemma_named_sections(m.sections, named.sections, ids, m.sections.len() as int);
    assert(m.sections.take(m.sections.len() as int) =~= m.sections);
    assert(named.sections.take(m.sections.len() as int) =~= named.sections);
    assert(module_uuids()(named) =~= ids.take(module_size()(m) as int));
    if ids.len() == module_size()(m) {
        assert(ids.take(module_size()(m) as int) =~= ids);
    }
}

proof fn lemma_named_sections(
    o: Seq<SectionView>,
    n: Seq<SectionView>,
    ids: Seq<Uuid>,
    k: int,
)
    requires
        0 <= k <= o.len() == n.len(),
        ids.len() >= 1 + total(o, section_size()),
        forall|i: int|
            0 <= i < o.len() ==> #[trigger] n[i] == section_named(
                o[i],
                ids.skip(1int + total(o.take(i), section_size())),
            ),
    ensures
        flat(n.take(k), section_uuids()) == ids.subrange(
            1,
            1int + total(o.take(k), section_size()),
        ),
    decreases k,
{
    if k > 0 {
        lemma_named_sections(o, n, ids, k - 1);
        lemma_total_take(o, section_size(), k - 1);
        crate::seqs::lemma_total_prefix(o, section_size(), k);
        let at = 1int + total(o.take(k - 1), section_size());
        lemma_section_takes(o[k - 1], ids.skip(at));
        crate::seqs::lemma_flat_take(n, section_uuids(), k - 1);
        assert(flat(n.take(k), section_uuids()) =~= ids.subrange(
            1,
            1int + total(o.take(k), section_size()),
        ));
    } else {
        assert(n.take(0) =~= Seq::empty());
        assert(o.take(0) =~= Seq::empty());
        assert(flat(n.take(k), section_uuids()) =~= ids.subrange(1, 1));
    }
}

proof fn lemma_named_modules(
    o: Seq<ModuleView>,
    n: Seq<ModuleView>,
    ids: Seq<Uuid>,
    regen: bool,
    k: int,
)
    requires
        0 <= k <= o.len() == n.len(),
        ids.len() >= 1 + total(o, module_size()),
        forall|i: int|
            0 <= i < o.len() ==> #[trigger] n[i] == module_named(
                o[i],
                ids.skip(1int + total(o.take(i), module_size())),
                regen,
            ),
    ensures
        flat(n.take(k), module_uuids()) == ids.subrange(1, 1int + total(o.take(k), module_size())),
    decreases k,
{
    if k > 0 {
        lemma_named_modules(o, n, ids, regen, k - 1);
        lemma_total_take(o, module_size(), k - 1);
        crate::seqs::lemma_total_prefix(o, module_size(), k);
        let at = 1int + total(o.take(k - 1), module_size());
        lemma_module_takes(o[k - 1], ids.skip(at), regen);
        crate::seqs::lemma_flat_take(n, module_uuids(), k - 1);
        assert(flat(n.take(k), module_uuids()) =~= ids.subrange(
            1,
            1int + total(o.take(k), module_size()),
        ));
    } else {
        assert(n.take(0) =~= Seq::empty());
        assert(o.take(0) =~= Seq::empty());
        assert(flat(n.take(k), module_uuids()) =~= ids.subrange(1, 1));
    }
}

// Regions and kinds.

/// An entry is in sync at its end and an exit at its begin. Both have the
/// bounds and the fade that were asked for, and are of the first group.
pub proof fn new_regions_are_in_sync(begin: u64, end: u64, pct: Real32, shape: Real32)
    ensures
        ({
            let r = Region::entry(begin, end, pct, shape);
            &&& r.begin_frames == begin && r.end_frames == end && r.sync_frames == end
            &&& r.fade_pct == pct && r.fade_shape == shape && r.group == 0
        }),
        ({
            let r = Region::exit(begin, end, pct, shape);
            &&& r.begin_frames == begin && r.end_frames == end && r.sync_frames == begin
            &&& r.fade_pct == pct && r.fade_shape == shape && r.group == 0
        }),
        begin <= end ==> begin + Region::entry(begin, end, pct, shape).length() == end,
        begin > end ==> Region::entry(begin, end, pct, shape).length() == 0,
{
}

/// A drawn fade rises from the begin of an in-region, or falls to the end of an
/// out-region, over its frames, by one part of the fade with each frame. It is
/// silent on the one side and full on the other.
pub proof fn drawn_fades_take_their_frames(r: Region, fade: u64, frame: u64)
    requires
        !r.fade_pct.at_most(Real32 { bits: ZERO_BITS }),
        0 < fade <= r.end_frames,
    ensures
        ({
            let l = r.in_level(fade, frame);
            &&& l is Silent <==> frame <= r.begin_frames
            &&& l is Full <==> frame >= r.begin_frames + fade
            &&& l matches FadeLevel::Rising { offset, length } ==> length == fade && offset
                == frame - r.begin_frames
            &&& !(l is Falling)
        }),
        ({
            let l = r.out_level(fade, frame);
            &&& l is Full <==> frame <= r.end_frames - fade
            &&& l is Silent <==> frame >= r.end_frames
            &&& l matches FadeLevel::Falling { offset, length } ==> length == fade && offset + (
            r.end_frames - frame) == fade
            &&& !(l is Rising)
        }),
{
}

/// A fade spans as many frames as it has, from the begin of an in-region or up
/// to the end of an out-region. One that is longer than what is before that end
/// begins with the first frame. Only inside its span does it rise or fall.
pub proof fn fades_span_their_frames(r: Region, fade: u64, frame: u64)
    requires
        !r.fade_pct.at_most(Real32 { bits: ZERO_BITS }),
    ensures
        r.rise(fade as int).0 == r.begin_frames,
        r.rise(fade as int).1 - r.rise(fade as int).0 == fade,
        r.fall(fade as int).1 == r.end_frames,
        fade <= r.end_frames ==> r.fall(fade as int).1 - r.fall(fade as int).0 == fade,
        fade > r.end_frames ==> r.fall(fade as int).0 == 0,
        r.in_level(fade, frame) is Rising <==> r.rise(fade as int).0 < frame < r.rise(
            fade as int,
        ).1,
        r.in_level(fade, frame) is Silent <==> frame <= r.rise(fade as int).0,
        r.out_level(fade, frame) is Falling <==> r.fall(fade as int).0 < frame < r.fall(
            fade as int,
        ).1,
        r.out_level(fade, frame) is Full <==> frame <= r.fall(fade as int).0,
{
}

/// A region without a fade is heard in full.
pub proof fn regions_without_a_fade_are_full(r: Region, fade: u64, frame: u64)
    requires
        r.fade_pct.at_most(Real32 { bits: ZERO_BITS }),
    ensures
        r.in_level(fade, frame) is Full,
        r.out_level(fade, frame) is Full,
{
}

/// The kinds come in the order Intro, Main, Outro, and are told apart by their
/// names, folders and letters.
pub proof fn kinds_are_told_apart(a: SectionKind, b: SectionKind)
    ensures
        SectionKind::Intro.order() == 0,
        SectionKind::Main.order() == 1,
        SectionKind::Outro.order() == 2,
        a != b ==> a.letter() != b.letter() && a.slug_text() != b.slug_text() && a.label_text()
            != b.label_text(),
        a.letter() == a.slug_text()[0],
        a.label_text().skip(1) == a.slug_text().skip(1),
{
    reveal_strlit("intro");
    reveal_strlit("main");
    reveal_strlit("outro");
    reveal_strlit("Intro");
    reveal_strlit("Main");
    reveal_strlit("Outro");
    assert("intro"@[0] == 'i' && "main"@[0] == 'm' && "outro"@[0] == 'o');
    assert("Intro"@[0] == 'I' && "Main"@[0] == 'M' && "Outro"@[0] == 'O');
    assert("Intro"@.skip(1) =~= "intro"@.skip(1));
    assert("Main"@.skip(1) =~= "main"@.skip(1));
    assert("Outro"@.skip(1) =~= "outro"@.skip(1));
}

} // verus!
