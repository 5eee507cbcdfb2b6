//! Edits of the tree.
//!
//! Nodes are named by identity. Every edit keeps the sections of a module in
//! the canonical order Intro, Main, Outro, and leaves no asset without a
//! page, no page without a module and no module without a section.
use vstd::prelude::*;

use crate::ids::random_marks;
use crate::ids::Uuid;
use crate::navigator::model::empty_pattern;
use crate::navigator::model::empty_section;
use crate::navigator::model::seeded_asset;
use crate::navigator::model::seeded_module;
use crate::navigator::model::seeded_page;
use crate::navigator::model::Asset;
use crate::navigator::model::AssetView;
use crate::navigator::model::Module;
use crate::navigator::model::ModuleView;
use crate::navigator::model::Page;
use crate::navigator::model::PageView;
use crate::navigator::model::Pattern;
use crate::navigator::model::PatternView;
use crate::navigator::model::Project;
use crate::navigator::model::ProjectView;
use crate::navigator::model::Region;
use crate::navigator::model::Section;
use crate::navigator::model::SectionKind;
use crate::navigator::model::SectionView;
use crate::navigator::queries::lemma_found_asset;
use crate::navigator::queries::lemma_found_module;
use crate::navigator::queries::lemma_found_page;
use crate::navigator::queries::lemma_found_pattern;
use crate::navigator::queries::lemma_found_section;
use crate::navigator::queries::ModulePath;
use crate::navigator::queries::PagePath;
use crate::navigator::queries::SectionPath;
use crate::seqs::flat;
use crate::seqs::lemma_flat_take;
use crate::seqs::lemma_total_prefix;
use crate::seqs::lemma_total_take;
use crate::seqs::total;
use crate::text::blank;
use crate::text::is_blank;
use crate::text::join;
use crate::text::numbered;
use crate::text::numbered_text;

verus! {

// Canonical order.

pub open spec fn kind_is(k: SectionKind) -> spec_fn(SectionView) -> bool {
    |s: SectionView| s.kind == k
}

/// The sections in canonical order, those of one kind as they stood.
pub open spec fn by_kind(s: Seq<SectionView>) -> Seq<SectionView> {
    s.filter(kind_is(SectionKind::Intro)) + s.filter(kind_is(SectionKind::Main)) + s.filter(
        kind_is(SectionKind::Outro),
    )
}

/// No section stands before one of an earlier kind.
pub open spec fn canonical(s: Seq<SectionView>) -> bool {
    forall|i: int, j: int|
        0 <= i <= j < s.len() ==> (#[trigger] s[i]).kind.order() <= (#[trigger] s[j]).kind.order()
}

pub open spec fn module_normal() -> spec_fn(ModuleView) -> ModuleView {
    |m: ModuleView| ModuleView { sections: by_kind(m.sections), ..m }
}

pub open spec fn page_normal() -> spec_fn(PageView) -> PageView {
    |p: PageView| PageView { modules: p.modules.map_values(module_normal()), ..p }
}

pub open spec fn asset_normal() -> spec_fn(AssetView) -> AssetView {
    |a: AssetView| AssetView { pages: a.pages.map_values(page_normal()), ..a }
}

// The invariant of the tree.

pub open spec fn module_ok(m: ModuleView) -> bool {
    m.sections.len() > 0 && canonical(m.sections)
}

pub open spec fn page_ok(p: PageView) -> bool {
    p.modules.len() > 0 && forall|i: int|
        0 <= i < p.modules.len() ==> module_ok(#[trigger] p.modules[i])
}

pub open spec fn asset_ok(a: AssetView) -> bool {
    a.pages.len() > 0 && forall|i: int| 0 <= i < a.pages.len() ==> page_ok(#[trigger] a.pages[i])
}

impl ProjectView {
    /// Every asset has a page, every page a module, every module a section,
    /// and the sections of every module stand in canonical order.
    pub open spec fn well_formed(self) -> bool {
        forall|i: int| 0 <= i < self.assets.len() ==> asset_ok(#[trigger] self.assets[i])
    }

    /// No asset, page or module is empty.
    pub open spec fn no_empty_parent(self) -> bool {
        forall|a: int| 0 <= a < self.assets.len() ==> no_empty_below(#[trigger] self.assets[a])
    }

    /// The tree with the sections of every module in canonical order.
    pub open spec fn normalized(self) -> ProjectView {
        ProjectView { assets: self.assets.map_values(asset_normal()) }
    }

    /// The tree with the pattern `u` changed by `f`; unchanged without it.
    pub open spec fn edit_pattern(
        self,
        u: Uuid,
        f: spec_fn(PatternView) -> PatternView,
    ) -> ProjectView {
        match self.find_pattern(u) {
            Some((a, (p, (m, (s, t))))) => self.with_pattern(
                a,
                p,
                m,
                s,
                t,
                f(self.assets[a].pages[p].modules[m].sections[s].patterns[t]),
            ),
            None => self,
        }
    }

    /// What a section is called: its kind, numbered among its siblings of
    /// that kind where there are several.
    pub open spec fn section_label(self, u: Uuid) -> Seq<char> {
        match self.find_section(u) {
            Some((a, (p, (m, s)))) => {
                let sections = self.assets[a].pages[p].modules[m].sections;
                let kind = sections[s].kind;
                if sections.filter(kind_is(kind)).len() <= 1 {
                    kind.label_text()
                } else {
                    numbered_text(
                        kind.label_text(),
                        sections.take(s + 1).filter(kind_is(kind)).len(),
                    )
                }
            },
            None => Seq::empty(),
        }
    }
}

pub open spec fn no_empty_in_page(p: PageView) -> bool {
    p.modules.len() > 0 && forall|i: int|
        0 <= i < p.modules.len() ==> (#[trigger] p.modules[i]).sections.len() > 0
}

pub open spec fn no_empty_below(a: AssetView) -> bool {
    a.pages.len() > 0 && forall|i: int|
        0 <= i < a.pages.len() ==> no_empty_in_page(#[trigger] a.pages[i])
}

/// A filtered sequence holds what was there and passes.
proof fn lemma_filter_all<T>(s: Seq<T>, f: spec_fn(T) -> bool)
    ensures
        forall|i: int| 0 <= i < s.filter(f).len() ==> f(#[trigger] s.filter(f)[i]),
        s.filter(f).len() <= s.len(),
    decreases s.len(),
{
    reveal(Seq::filter);
    if s.len() > 0 {
        lemma_filter_all(s.drop_last(), f);
    }
}

proof fn lemma_filter_none<T>(s: Seq<T>, f: spec_fn(T) -> bool)
    requires
        forall|i: int| 0 <= i < s.len() ==> !f(#[trigger] s[i]),
    ensures
        s.filter(f) =~= Seq::empty(),
    decreases s.len(),
{
    reveal(Seq::filter);
    if s.len() > 0 {
        lemma_filter_none(s.drop_last(), f);
    }
}

pub proof fn lemma_filter_push<T>(s: Seq<T>, f: spec_fn(T) -> bool, x: T)
    ensures
        s.push(x).filter(f) == if f(x) {
            s.filter(f).push(x)
        } else {
            s.filter(f)
        },
{
    reveal(Seq::filter);
    assert(s.push(x).drop_last() =~= s);
}

proof fn lemma_insert_counts<T>(s: Seq<T>, i: int, x: T)
    requires
        0 <= i <= s.len(),
    ensures
        s.insert(i, x).to_multiset() == s.to_multiset().insert(x),
{
    broadcast use vstd::seq_lib::group_to_multiset_ensures;

    assert(s =~= s.insert(i, x).remove(i));
}

/// Sorting by kind gives the canonical order, loses and adds nothing.
pub proof fn lemma_by_kind(s: Seq<SectionView>)
    ensures
        canonical(by_kind(s)),
        by_kind(s).len() == s.len(),
        by_kind(s).to_multiset() == s.to_multiset(),
    decreases s.len(),
{
    let i = s.filter(kind_is(SectionKind::Intro));
    let m = s.filter(kind_is(SectionKind::Main));
    let o = s.filter(kind_is(SectionKind::Outro));
    lemma_filter_all(s, kind_is(SectionKind::Intro));
    lemma_filter_all(s, kind_is(SectionKind::Main));
    lemma_filter_all(s, kind_is(SectionKind::Outro));
    let r = by_kind(s);
    assert forall|x: int, y: int| 0 <= x <= y < r.len() implies (#[trigger] r[x]).kind.order() <= (
    #[trigger] r[y]).kind.order() by {
        assert(r[x] == if x < i.len() {
            i[x]
        } else if x < i.len() + m.len() {
            m[x - i.len()]
        } else {
            o[x - i.len() - m.len()]
        });
        assert(r[y] == if y < i.len() {
            i[y]
        } else if y < i.len() + m.len() {
            m[y - i.len()]
        } else {
            o[y - i.len() - m.len()]
        });
    }
    if s.len() == 0 {
        reveal(Seq::filter);
        assert(r =~= s);
    } else {
        let t = s.drop_last();
        let x = s.last();
        assert(s =~= t.push(x));
        lemma_by_kind(t);
        lemma_filter_push(t, kind_is(SectionKind::Intro), x);
        lemma_filter_push(t, kind_is(SectionKind::Main), x);
        lemma_filter_push(t, kind_is(SectionKind::Outro), x);
        let ti = t.filter(kind_is(SectionKind::Intro));
        let tm = t.filter(kind_is(SectionKind::Main));
        let to = t.filter(kind_is(SectionKind::Outro));
        let at = if x.kind == SectionKind::Intro {
            ti.len() as int
        } else if x.kind == SectionKind::Main {
            (ti.len() + tm.len()) as int
        } else {
            (ti.len() + tm.len() + to.len()) as int
        };
        assert(r =~= by_kind(t).insert(at, x));
        lemma_insert_counts(by_kind(t), at, x);
        lemma_insert_counts(t, t.len() as int, x);
        assert(t.insert(t.len() as int, x) =~= s);
    }
}

/// A section of the latest kind sorts to the end.
proof fn lemma_by_kind_push(t: Seq<SectionView>, x: SectionView)
    requires
        forall|i: int| 0 <= i < t.len() ==> (#[trigger] t[i]).kind.order() <= x.kind.order(),
    ensures
        by_kind(t.push(x)) == by_kind(t).push(x),
{
    lemma_filter_push(t, kind_is(SectionKind::Intro), x);
    lemma_filter_push(t, kind_is(SectionKind::Main), x);
    lemma_filter_push(t, kind_is(SectionKind::Outro), x);
    if x.kind != SectionKind::Outro {
        lemma_filter_none(t, kind_is(SectionKind::Outro));
    }
    if x.kind == SectionKind::Intro {
        lemma_filter_none(t, kind_is(SectionKind::Main));
    }
    assert(by_kind(t.push(x)) =~= by_kind(t).push(x));
}

/// What stands in canonical order already is left as it is.
pub proof fn lemma_by_kind_canonical(s: Seq<SectionView>)
    requires
        canonical(s),
    ensures
        by_kind(s) == s,
    decreases s.len(),
{
    if s.len() == 0 {
        lemma_filter_none(s, kind_is(SectionKind::Intro));
        lemma_filter_none(s, kind_is(SectionKind::Main));
        lemma_filter_none(s, kind_is(SectionKind::Outro));
        assert(by_kind(s) =~= s);
    } else {
        lemma_canonical_prefix(s);
        lemma_by_kind_canonical(s.drop_last());
        lemma_by_kind_push(s.drop_last(), s.last());
    }
}

proof fn lemma_canonical_prefix(s: Seq<SectionView>)
    requires
        canonical(s),
        s.len() > 0,
    ensures
        canonical(s.drop_last()),
        s == s.drop_last().push(s.last()),
        forall|i: int|
            0 <= i < s.len() - 1 ==> (#[trigger] s.drop_last()[i]).kind.order()
                <= s.last().kind.order(),
{
    assert(s =~= s.drop_last().push(s.last()));
}

// What the invariant needs of a replaced node.

pub proof fn lemma_keep_asset(v: ProjectView, a: int, x: AssetView)
    requires
        v.well_formed(),
        v.asset_at(a) is Some,
        asset_ok(x),
    ensures
        v.with_asset(a, x).well_formed(),
{
    let w = v.with_asset(a, x);
    assert forall|i: int| 0 <= i < w.assets.len() implies asset_ok(#[trigger] w.assets[i]) by {
        assert(i == a || w.assets[i] == v.assets[i]);
    }
}

pub proof fn lemma_keep_page(v: ProjectView, a: int, p: int, x: PageView)
    requires
        v.well_formed(),
        v.page_at(a, p) is Some,
        page_ok(x),
    ensures
        v.with_page(a, p, x).well_formed(),
{
    let y = v.assets[a];
    let z = AssetView { pages: y.pages.update(p, x), ..y };
    assert forall|i: int| 0 <= i < z.pages.len() implies page_ok(#[trigger] z.pages[i]) by {
        assert(i == p || z.pages[i] == y.pages[i]);
    }
    lemma_keep_asset(v, a, z);
}

pub proof fn lemma_keep_module(v: ProjectView, a: int, p: int, m: int, x: ModuleView)
    requires
        v.well_formed(),
        v.module_at(a, p, m) is Some,
        module_ok(x),
    ensures
        v.with_module(a, p, m, x).well_formed(),
{
    let y = v.assets[a].pages[p];
    let z = PageView { modules: y.modules.update(m, x), ..y };
    assert(page_ok(y));
    assert forall|i: int| 0 <= i < z.modules.len() implies module_ok(#[trigger] z.modules[i]) by {
        assert(i == m || z.modules[i] == y.modules[i]);
    }
    lemma_keep_page(v, a, p, z);
}

pub proof fn lemma_keep_section(v: ProjectView, a: int, p: int, m: int, s: int, x: SectionView)
    requires
        v.well_formed(),
        v.section_at(a, p, m, s) matches Some(y) && y.kind == x.kind,
    ensures
        v.with_section(a, p, m, s, x).well_formed(),
{
    let y = v.assets[a].pages[p].modules[m];
    let z = ModuleView { sections: y.sections.update(s, x), ..y };
    assert(page_ok(v.assets[a].pages[p]));
    assert(module_ok(y));
    assert forall|i: int, j: int| 0 <= i <= j < z.sections.len() implies (
    #[trigger] z.sections[i]).kind.order() <= (#[trigger] z.sections[j]).kind.order() by {
        assert(y.sections[i].kind.order() <= y.sections[j].kind.order());
        assert(z.sections[i].kind == y.sections[i].kind);
        assert(z.sections[j].kind == y.sections[j].kind);
    }
    lemma_keep_module(v, a, p, m, z);
}

/// Changing a pattern never breaks the invariant.
pub proof fn lemma_keep_pattern(v: ProjectView, u: Uuid, f: spec_fn(PatternView) -> PatternView)
    requires
        v.well_formed(),
    ensures
        v.edit_pattern(u, f).well_formed(),
{
    lemma_found_pattern(v, u);
    if let Some((a, (p, (m, (s, t))))) = v.find_pattern(u) {
        let y = v.assets[a].pages[p].modules[m].sections[s];
        lemma_keep_section(
            v,
            a,
            p,
            m,
            s,
            SectionView { patterns: y.patterns.update(t, f(y.patterns[t])), ..y },
        );
    }
}

impl Module {
    fn normalize(&mut self)
        ensures
            final(self)@ == module_normal()(old(self)@),
    {
        Project::normalize_module_sections(&mut self.sections);
    }
}

impl Page {
    fn normalize(&mut self)
        ensures
            final(self)@ == page_normal()(old(self)@),
    {
        let ghost o = self@;
        let mut i: usize = 0;
        while i < self.modules.len()
            invariant
                0 <= i <= self.modules@.len(),
                self@.modules.len() == o.modules.len(),
                self@ == (PageView { modules: self@.modules, ..o }),
                forall|k: int|
                    0 <= k < i ==> #[trigger] self@.modules[k] == module_normal()(o.modules[k]),
                forall|k: int|
                    i <= k < o.modules.len() ==> #[trigger] self@.modules[k] == o.modules[k],
            decreases self.modules@.len() - i,
        {
            let ghost before = self@;
            assert(before.modules[i as int] == self.modules@[i as int]@);
            self.modules[i].normalize();
            assert(self@.modules =~= before.modules.update(
                i as int,
                module_normal()(o.modules[i as int]),
            ));
            i += 1;
        }
        assert(self@.modules =~= o.modules.map_values(module_normal()));
    }
}

impl Asset {
    fn normalize(&mut self)
        ensures
            final(self)@ == asset_normal()(old(self)@),
    {
        let ghost o = self@;
        let mut i: usize = 0;
        while i < self.pages.len()
            invariant
                0 <= i <= self.pages@.len(),
                self@.pages.len() == o.pages.len(),
                self@ == (AssetView { pages: self@.pages, ..o }),
                forall|k: int|
                    0 <= k < i ==> #[trigger] self@.pages[k] == page_normal()(o.pages[k]),
                forall|k: int|
                    i <= k < o.pages.len() ==> #[trigger] self@.pages[k] == o.pages[k],
            decreases self.pages@.len() - i,
        {
            let ghost before = self@;
            assert(before.pages[i as int] == self.pages@[i as int]@);
            self.pages[i].normalize();
            assert(self@.pages =~= before.pages.update(
                i as int,
                page_normal()(o.pages[i as int]),
            ));
            i += 1;
        }
        assert(self@.pages =~= o.pages.map_values(page_normal()));
    }
}

/// A tree without empty parents becomes well-formed by sorting its sections.
pub proof fn lemma_normalized(v: ProjectView)
    requires
        v.no_empty_parent(),
    ensures
        v.normalized().well_formed(),
{
    let w = v.normalized();
    assert forall|i: int| 0 <= i < w.assets.len() implies asset_ok(#[trigger] w.assets[i]) by {
        let x = v.assets[i];
        let y = w.assets[i];
        assert(no_empty_below(x));
        assert forall|j: int| 0 <= j < y.pages.len() implies page_ok(#[trigger] y.pages[j]) by {
            let z = x.pages[j];
            assert(no_empty_in_page(z));
            let q = y.pages[j];
            assert forall|k: int| 0 <= k < q.modules.len() implies module_ok(
                #[trigger] q.modules[k],
            ) by {
                assert(z.modules[k].sections.len() > 0);
                lemma_by_kind(z.modules[k].sections);
            }
        }
    }
}

// Identities below a node, each node before its children.

pub open spec fn pattern_uuid() -> spec_fn(PatternView) -> Uuid {
    |p: PatternView| p.uuid
}

pub open spec fn section_uuids() -> spec_fn(SectionView) -> Seq<Uuid> {
    |s: SectionView| seq![s.uuid] + s.patterns.map_values(pattern_uuid())
}

pub open spec fn module_uuids() -> spec_fn(ModuleView) -> Seq<Uuid> {
    |m: ModuleView| seq![m.uuid] + flat(m.sections, section_uuids())
}

pub open spec fn page_uuids() -> spec_fn(PageView) -> Seq<Uuid> {
    |p: PageView| seq![p.uuid] + flat(p.modules, module_uuids())
}

pub open spec fn asset_uuids() -> spec_fn(AssetView) -> Seq<Uuid> {
    |a: AssetView| seq![a.uuid] + flat(a.pages, page_uuids())
}

fn collect_section_uuids(s: &Section) -> (r: Vec<Uuid>)
    ensures
        r@ == section_uuids()(s@),
{
    let mut out: Vec<Uuid> = Vec::new();
    out.push(s.uuid);
    let mut i: usize = 0;
    while i < s.patterns.len()
        invariant
            0 <= i <= s.patterns@.len(),
            out@ =~= seq![s.uuid] + s@.patterns.map_values(pattern_uuid()).take(i as int),
        decreases s.patterns@.len() - i,
    {
        assert(s@.patterns[i as int] == s.patterns@[i as int]@);
        out.push(s.patterns[i].uuid);
        i += 1;
    }
    assert(s@.patterns.map_values(pattern_uuid()).take(i as int) =~= s@.patterns.map_values(
        pattern_uuid(),
    ));
    out
}

fn collect_module_uuids(m: &Module) -> (r: Vec<Uuid>)
    ensures
        r@ == module_uuids()(m@),
{
    let mut out: Vec<Uuid> = Vec::new();
    out.push(m.uuid);
    let ghost f = section_uuids();
    let mut i: usize = 0;
    while i < m.sections.len()
        invariant
            0 <= i <= m.sections@.len(),
            f == section_uuids(),
            out@ =~= seq![m.uuid] + flat(m@.sections.take(i as int), f),
        decreases m.sections@.len() - i,
    {
        proof {
            lemma_flat_take(m@.sections, f, i as int);
            assert(m@.sections[i as int] == m.sections@[i as int]@);
        }
        let mut more = collect_section_uuids(&m.sections[i]);
        out.append(&mut more);
        i += 1;
    }
    assert(m@.sections.take(i as int) =~= m@.sections);
    out
}

fn collect_page_uuids(p: &Page) -> (r: Vec<Uuid>)
    ensures
        r@ == page_uuids()(p@),
{
    let mut out: Vec<Uuid> = Vec::new();
    out.push(p.uuid);
    let ghost f = module_uuids();
    let mut i: usize = 0;
    while i < p.modules.len()
        invariant
            0 <= i <= p.modules@.len(),
            f == module_uuids(),
            out@ =~= seq![p.uuid] + flat(p@.modules.take(i as int), f),
        decreases p.modules@.len() - i,
    {
        proof {
            lemma_flat_take(p@.modules, f, i as int);
            assert(p@.modules[i as int] == p.modules@[i as int]@);
        }
        let mut more = collect_module_uuids(&p.modules[i]);
        out.append(&mut more);
        i += 1;
    }
    assert(p@.modules.take(i as int) =~= p@.modules);
    out
}

fn collect_asset_uuids(a: &Asset) -> (r: Vec<Uuid>)
    ensures
        r@ == asset_uuids()(a@),
{
    let mut out: Vec<Uuid> = Vec::new();
    out.push(a.uuid);
    let ghost f = page_uuids();
    let mut i: usize = 0;
    while i < a.pages.len()
        invariant
            0 <= i <= a.pages@.len(),
            f == page_uuids(),
            out@ =~= seq![a.uuid] + flat(a@.pages.take(i as int), f),
        decreases a.pages@.len() - i,
    {
        proof {
            lemma_flat_take(a@.pages, f, i as int);
            assert(a@.pages[i as int] == a.pages@[i as int]@);
        }
        let mut more = collect_page_uuids(&a.pages[i]);
        out.append(&mut more);
        i += 1;
    }
    assert(a@.pages.take(i as int) =~= a@.pages);
    out
}

// Copies with new identities.

/// `copy` is `orig` but for a new identity.
pub open spec fn fresh_pattern(orig: PatternView, copy: PatternView) -> bool {
    copy == (PatternView { uuid: copy.uuid, ..orig }) && random_marks(copy.uuid.value)
}

/// `copy` is `orig` but for new identities on it and its patterns.
pub open spec fn fresh_section(orig: SectionView, copy: SectionView) -> bool {
    &&& copy == (SectionView { uuid: copy.uuid, patterns: copy.patterns, ..orig })
    &&& random_marks(copy.uuid.value)
    &&& copy.patterns.len() == orig.patterns.len()
    &&& forall|i: int|
        0 <= i < orig.patterns.len() ==> fresh_pattern(
            orig.patterns[i],
            #[trigger] copy.patterns[i],
        )
}

/// `copy` is `orig` but for new identities on it and below it. It shares the
/// content of `orig`, or is its own content where `regen`.
pub open spec fn fresh_module(orig: ModuleView, copy: ModuleView, regen: bool) -> bool {
    &&& copy == (ModuleView {
        uuid: copy.uuid,
        content_uuid: if regen {
            copy.uuid
        } else {
            orig.content_uuid
        },
        sections: copy.sections,
        ..orig
    })
    &&& random_marks(copy.uuid.value)
    &&& copy.sections.len() == orig.sections.len()
    &&& forall|i: int|
        0 <= i < orig.sections.len() ==> fresh_section(
            orig.sections[i],
            #[trigger] copy.sections[i],
        )
}

/// `copy` is `orig` but for new identities on it and below it. It and its
/// modules share the content of `orig` and its modules, or are their own
/// content where `regen`.
pub open spec fn fresh_page(orig: PageView, copy: PageView, regen: bool) -> bool {
    &&& copy == (PageView {
        uuid: copy.uuid,
        content_uuid: if regen {
            copy.uuid
        } else {
            orig.content_uuid
        },
        modules: copy.modules,
        ..orig
    })
    &&& random_marks(copy.uuid.value)
    &&& copy.modules.len() == orig.modules.len()
    &&& forall|i: int|
        0 <= i < orig.modules.len() ==> fresh_module(
            orig.modules[i],
            #[trigger] copy.modules[i],
            regen,
        )
}

// How many identities a node takes, its own and those below it.

pub open spec fn section_size() -> spec_fn(SectionView) -> nat {
    |s: SectionView| 1 + s.patterns.len()
}

pub open spec fn module_size() -> spec_fn(ModuleView) -> nat {
    |m: ModuleView| 1 + total(m.sections, section_size())
}

pub open spec fn page_size() -> spec_fn(PageView) -> nat {
    |p: PageView| 1 + total(p.modules, module_size())
}

// Nodes under given identities, each node before its children.

pub open spec fn section_named(s: SectionView, ids: Seq<Uuid>) -> SectionView {
    SectionView {
        uuid: ids[0],
        patterns: Seq::new(
            s.patterns.len(),
            |i: int| PatternView { uuid: ids[i + 1], ..s.patterns[i] },
        ),
        ..s
    }
}

/// It shares the content of `m`, or is its own content where `regen`.
pub open spec fn module_named(m: ModuleView, ids: Seq<Uuid>, regen: bool) -> ModuleView {
    ModuleView {
        uuid: ids[0],
        content_uuid: if regen {
            ids[0]
        } else {
            m.content_uuid
        },
        sections: Seq::new(
            m.sections.len(),
            |i: int|
                section_named(
                    m.sections[i],
                    ids.skip(1int + total(m.sections.take(i), section_size())),
                ),
        ),
        ..m
    }
}

/// It and its modules share the content of `p` and its modules, or are their
/// own content where `regen`.
pub open spec fn page_named(p: PageView, ids: Seq<Uuid>, regen: bool) -> PageView {
    PageView {
        uuid: ids[0],
        content_uuid: if regen {
            ids[0]
        } else {
            p.content_uuid
        },
        modules: Seq::new(
            p.modules.len(),
            |i: int|
                module_named(
                    p.modules[i],
                    ids.skip(1int + total(p.modules.take(i), module_size())),
                    regen,
                ),
        ),
        ..p
    }
}

/// All identities carry the marks of random ones.
pub open spec fn all_random(ids: Seq<Uuid>) -> bool {
    forall|i: int| 0 <= i < ids.len() ==> random_marks((#[trigger] ids[i]).value)
}

proof fn lemma_named_section(s: SectionView, ids: Seq<Uuid>)
    requires
        ids.len() >= section_size()(s),
        all_random(ids),
    ensures
        fresh_section(s, section_named(s, ids)),
{
    let copy = section_named(s, ids);
    assert forall|i: int| 0 <= i < s.patterns.len() implies fresh_pattern(
        s.patterns[i],
        #[trigger] copy.patterns[i],
    ) by {
        assert(random_marks(ids[i + 1].value));
    }
}

proof fn lemma_named_module(m: ModuleView, ids: Seq<Uuid>, regen: bool)
    requires
        ids.len() >= module_size()(m),
        all_random(ids),
    ensures
        fresh_module(m, module_named(m, ids, regen), regen),
{
    let copy = module_named(m, ids, regen);
    assert(random_marks(ids[0].value));
    assert forall|i: int| 0 <= i < m.sections.len() implies fresh_section(
        m.sections[i],
        #[trigger] copy.sections[i],
    ) by {
        lemma_total_take(m.sections, section_size(), i);
        lemma_total_prefix(m.sections, section_size(), i + 1);
        lemma_named_section(
            m.sections[i],
            ids.skip(1int + total(m.sections.take(i), section_size())),
        );
    }
}

proof fn lemma_named_page(p: PageView, ids: Seq<Uuid>, regen: bool)
    requires
        ids.len() >= page_size()(p),
        all_random(ids),
    ensures
        fresh_page(p, page_named(p, ids, regen), regen),
{
    let copy = page_named(p, ids, regen);
    assert(random_marks(ids[0].value));
    assert forall|i: int| 0 <= i < p.modules.len() implies fresh_module(
        p.modules[i],
        #[trigger] copy.modules[i],
        regen,
    ) by {
        lemma_total_take(p.modules, module_size(), i);
        lemma_total_prefix(p.modules, module_size(), i + 1);
        lemma_named_module(
            p.modules[i],
            ids.skip(1int + total(p.modules.take(i), module_size())),
            regen,
        );
    }
}

/// Give a pattern the identity `id`.
pub fn freshen_pattern_with(p: &mut Pattern, id: Uuid)
    ensures
        final(p)@ == (PatternView { uuid: id, ..old(p)@ }),
{
    p.uuid = id;
}

fn name_section(s: &mut Section, ids: &Vec<Uuid>, at: usize) -> (end: usize)
    requires
        at + section_size()(old(s)@) <= ids@.len(),
    ensures
        final(s)@ == section_named(old(s)@, ids@.skip(at as int)),
        end == at + section_size()(old(s)@),
{
    let ghost o = s@;
    s.uuid = ids[at];
    let mut i: usize = 0;
    while i < s.patterns.len()
        invariant
            0 <= i <= s.patterns@.len(),
            s@.patterns.len() == o.patterns.len(),
            s@ == (SectionView { uuid: ids@[at as int], patterns: s@.patterns, ..o }),
            at + 1 + o.patterns.len() <= ids@.len(),
            forall|k: int|
                0 <= k < i ==> #[trigger] s@.patterns[k] == (PatternView {
                    uuid: ids@[at + 1 + k],
                    ..o.patterns[k]
                }),
            forall|k: int|
                i <= k < o.patterns.len() ==> #[trigger] s@.patterns[k] == o.patterns[k],
        decreases s.patterns@.len() - i,
    {
        let ghost before = s@;
        assert(before.patterns[i as int] == s.patterns@[i as int]@);
        assert(ids.len() == ids@.len());
        freshen_pattern_with(&mut s.patterns[i], ids[at + 1 + i]);
        let ghost now = s.patterns@[i as int]@;
        assert(s@.patterns =~= before.patterns.update(i as int, now));
        i += 1;
    }
    assert(s@.patterns =~= section_named(o, ids@.skip(at as int)).patterns);
    assert(ids.len() == ids@.len());
    at + 1 + s.patterns.len()
}

fn name_module(m: &mut Module, ids: &Vec<Uuid>, at: usize, regen: bool) -> (end: usize)
    requires
        at + module_size()(old(m)@) <= ids@.len(),
    ensures
        final(m)@ == module_named(old(m)@, ids@.skip(at as int), regen),
        end == at + module_size()(old(m)@),
{
    let ghost o = m@;
    let ghost named = module_named(o, ids@.skip(at as int), regen);
    m.uuid = ids[at];
    if regen {
        m.content_uuid = m.uuid;
    }
    assert(ids.len() == ids@.len());
    let mut next: usize = at + 1;
    let mut i: usize = 0;
    while i < m.sections.len()
        invariant
            0 <= i <= m.sections@.len(),
            m@.sections.len() == o.sections.len(),
            named == module_named(o, ids@.skip(at as int), regen),
            m@ == (ModuleView { sections: m@.sections, ..named }),
            at + 1 + total(o.sections, section_size()) <= ids@.len(),
            next == at + 1 + total(o.sections.take(i as int), section_size()),
            forall|k: int|
                0 <= k < i ==> #[trigger] m@.sections[k] == named.sections[k],
            forall|k: int|
                i <= k < o.sections.len() ==> #[trigger] m@.sections[k] == o.sections[k],
        decreases m.sections@.len() - i,
    {
        let ghost before = m@;
        assert(before.sections[i as int] == m.sections@[i as int]@);
        proof {
            lemma_total_take(o.sections, section_size(), i as int);
            lemma_total_prefix(o.sections, section_size(), i + 1);
            assert(ids@.skip(next as int) =~= ids@.skip(at as int).skip(next - at));
        }
        next = name_section(&mut m.sections[i], ids, next);
        let ghost now = m.sections@[i as int]@;
        assert(m@.sections =~= before.sections.update(i as int, now));
        i += 1;
    }
    assert(o.sections.take(i as int) =~= o.sections);
    assert(m@.sections =~= named.sections);
    next
}

fn name_page(p: &mut Page, ids: &Vec<Uuid>, regen: bool)
    requires
        page_size()(old(p)@) <= ids@.len(),
    ensures
        final(p)@ == page_named(old(p)@, ids@, regen),
{
    let ghost o = p@;
    let ghost named = page_named(o, ids@, regen);
    p.uuid = ids[0];
    if regen {
        p.content_uuid = p.uuid;
    }
    let mut next: usize = 1;
    let mut i: usize = 0;
    while i < p.modules.len()
        invariant
            0 <= i <= p.modules@.len(),
            p@.modules.len() == o.modules.len(),
            named == page_named(o, ids@, regen),
            p@ == (PageView { modules: p@.modules, ..named }),
            1 + total(o.modules, module_size()) <= ids@.len(),
            next == 1 + total(o.modules.take(i as int), module_size()),
            forall|k: int| 0 <= k < i ==> #[trigger] p@.modules[k] == named.modules[k],
            forall|k: int|
                i <= k < o.modules.len() ==> #[trigger] p@.modules[k] == o.modules[k],
        decreases p.modules@.len() - i,
    {
        let ghost before = p@;
        assert(before.modules[i as int] == p.modules@[i as int]@);
        proof {
            lemma_total_take(o.modules, module_size(), i as int);
            lemma_total_prefix(o.modules, module_size(), i + 1);
        }
        next = name_module(&mut p.modules[i], ids, next, regen);
        let ghost now = p.modules@[i as int]@;
        assert(p@.modules =~= before.modules.update(i as int, now));
        i += 1;
    }
    assert(p@.modules =~= named.modules);
}

/// Give a section and its patterns the identities `ids`.
pub fn freshen_section_with(s: &mut Section, ids: &Vec<Uuid>)
    requires
        ids@.len() == 1 + old(s)@.patterns.len(),
    ensures
        final(s)@ == (SectionView {
            uuid: ids@[0],
            patterns: Seq::new(
                old(s)@.patterns.len(),
                |i: int| PatternView { uuid: ids@[i + 1], ..old(s)@.patterns[i] },
            ),
            ..old(s)@
        }),
{
    let ghost o = s@;
    name_section(s, ids, 0);
    assert(ids@.skip(0) =~= ids@);
    assert(s@.patterns =~= Seq::new(
        o.patterns.len(),
        |i: int| PatternView { uuid: ids@[i + 1], ..o.patterns[i] },
    ));
}

/// Give a module and what is below it the identities `ids`. It keeps its
/// content, or is its own content where `regen_content`.
pub fn freshen_module_with(m: &mut Module, ids: &Vec<Uuid>, regen_content: bool)
    requires
        ids@.len() == module_size()(old(m)@),
    ensures
        final(m)@ == module_named(old(m)@, ids@, regen_content),
{
    name_module(m, ids, 0, regen_content);
    assert(ids@.skip(0) =~= ids@);
}

/// Give a page and what is below it the identities `ids`. It and its modules
/// keep their content, or are their own content where `regen_content`.
pub fn freshen_page_with(p: &mut Page, ids: &Vec<Uuid>, regen_content: bool)
    requires
        ids@.len() == page_size()(old(p)@),
    ensures
        final(p)@ == page_named(old(p)@, ids@, regen_content),
{
    name_page(p, ids, regen_content);
}

/// Draw the identities of a section, behind those that are there.
fn draw_for_section(s: &Section, ids: &mut Vec<Uuid>)
    requires
        all_random(old(ids)@),
    ensures
        all_random(final(ids)@),
        final(ids)@.len() == old(ids)@.len() + section_size()(s@),
{
    let ghost before = ids@.len();
    ids.push(Uuid::new_v4());
    let mut i: usize = 0;
    while i < s.patterns.len()
        invariant
            0 <= i <= s.patterns@.len(),
            all_random(ids@),
            ids@.len() == before + 1 + i,
        decreases s.patterns@.len() - i,
    {
        ids.push(Uuid::new_v4());
        i += 1;
    }
}

fn draw_for_module(m: &Module, ids: &mut Vec<Uuid>)
    requires
        all_random(old(ids)@),
    ensures
        all_random(final(ids)@),
        final(ids)@.len() == old(ids)@.len() + module_size()(m@),
{
    let ghost before = ids@.len();
    ids.push(Uuid::new_v4());
    let mut i: usize = 0;
    while i < m.sections.len()
        invariant
            0 <= i <= m.sections@.len(),
            all_random(ids@),
            ids@.len() == before + 1 + total(m@.sections.take(i as int), section_size()),
        decreases m.sections@.len() - i,
    {
        proof {
            lemma_total_take(m@.sections, section_size(), i as int);
            assert(m@.sections[i as int] == m.sections@[i as int]@);
        }
        draw_for_section(&m.sections[i], ids);
        i += 1;
    }
    assert(m@.sections.take(i as int) =~= m@.sections);
}

fn draw_for_page(p: &Page, ids: &mut Vec<Uuid>)
    requires
        all_random(old(ids)@),
    ensures
        all_random(final(ids)@),
        final(ids)@.len() == old(ids)@.len() + page_size()(p@),
{
    let ghost before = ids@.len();
    ids.push(Uuid::new_v4());
    let mut i: usize = 0;
    while i < p.modules.len()
        invariant
            0 <= i <= p.modules@.len(),
            all_random(ids@),
            ids@.len() == before + 1 + total(p@.modules.take(i as int), module_size()),
        decreases p.modules@.len() - i,
    {
        proof {
            lemma_total_take(p@.modules, module_size(), i as int);
            assert(p@.modules[i as int] == p.modules@[i as int]@);
        }
        draw_for_module(&p.modules[i], ids);
        i += 1;
    }
    assert(p@.modules.take(i as int) =~= p@.modules);
}

fn freshen_section(s: &mut Section)
    ensures
        fresh_section(old(s)@, final(s)@),
{
    let ghost o = s@;
    let mut ids: Vec<Uuid> = Vec::new();
    draw_for_section(s, &mut ids);
    freshen_section_with(s, &ids);
    proof {
        lemma_named_section(o, ids@);
        assert(s@ =~= section_named(o, ids@));
    }
}

/// `regen_content` is false for a duplicate, true for a clone.
fn freshen_module(m: &mut Module, regen_content: bool)
    ensures
        fresh_module(old(m)@, final(m)@, regen_content),
{
    let ghost o = m@;
    let mut ids: Vec<Uuid> = Vec::new();
    draw_for_module(m, &mut ids);
    freshen_module_with(m, &ids, regen_content);
    proof {
        lemma_named_module(o, ids@, regen_content);
    }
}

fn freshen_page(pg: &mut Page, regen_content: bool)
    ensures
        fresh_page(old(pg)@, final(pg)@, regen_content),
{
    let ghost o = pg@;
    let mut ids: Vec<Uuid> = Vec::new();
    draw_for_page(pg, &mut ids);
    freshen_page_with(pg, &ids, regen_content);
    proof {
        lemma_named_page(o, ids@, regen_content);
    }
}

/// A copy of a well-formed module is well-formed.
pub proof fn lemma_fresh_module_ok(orig: ModuleView, copy: ModuleView, regen: bool)
    requires
        module_ok(orig),
        fresh_module(orig, copy, regen),
    ensures
        module_ok(copy),
{
    assert forall|i: int, j: int| 0 <= i <= j < copy.sections.len() implies (
    #[trigger] copy.sections[i]).kind.order() <= (#[trigger] copy.sections[j]).kind.order() by {
        assert(fresh_section(orig.sections[i], copy.sections[i]));
        assert(fresh_section(orig.sections[j], copy.sections[j]));
        assert(orig.sections[i].kind.order() <= orig.sections[j].kind.order());
    }
}

/// A copy of a well-formed page is well-formed.
pub proof fn lemma_fresh_page_ok(orig: PageView, copy: PageView, regen: bool)
    requires
        page_ok(orig),
        fresh_page(orig, copy, regen),
    ensures
        page_ok(copy),
{
    assert forall|i: int| 0 <= i < copy.modules.len() implies module_ok(
        #[trigger] copy.modules[i],
    ) by {
        assert(fresh_module(orig.modules[i], copy.modules[i], regen));
        assert(module_ok(orig.modules[i]));
        lemma_fresh_module_ok(orig.modules[i], copy.modules[i], regen);
    }
}

proof fn lemma_seeded_ok(m: ModuleView, id: Seq<char>)
    requires
        seeded_module(m, id),
    ensures
        module_ok(m),
{
}


impl Project {
    // Order.

    /// Stable-sort a module's sections into canonical order.
    fn normalize_module_sections(sections: &mut Vec<Section>)
        ensures
            section_views(final(sections)@) == by_kind(section_views(old(sections)@)),
    {
        let ghost all = section_views(sections@);
        let mut intros: Vec<Section> = Vec::new();
        let mut mains: Vec<Section> = Vec::new();
        let mut outros: Vec<Section> = Vec::new();
        let ghost fi = kind_is(SectionKind::Intro);
        let ghost fm = kind_is(SectionKind::Main);
        let ghost fo = kind_is(SectionKind::Outro);
        while sections.len() > 0
            invariant
                fi == kind_is(SectionKind::Intro),
                fm == kind_is(SectionKind::Main),
                fo == kind_is(SectionKind::Outro),
                all.filter(fi) =~= section_views(sections@).filter(fi) + section_views(
                    intros@,
                ).reverse(),
                all.filter(fm) =~= section_views(sections@).filter(fm) + section_views(
                    mains@,
                ).reverse(),
                all.filter(fo) =~= section_views(sections@).filter(fo) + section_views(
                    outros@,
                ).reverse(),
            decreases sections@.len(),
        {
            let ghost before = sections@;
            match sections.pop() {
                Some(s) => {
                    proof {
                        assert(section_views(before) =~= section_views(sections@).push(s@));
                        lemma_filter_push(section_views(sections@), fi, s@);
                        lemma_filter_push(section_views(sections@), fm, s@);
                        lemma_filter_push(section_views(sections@), fo, s@);
                    }
                    let ghost (i0, m0, o0) = (intros@, mains@, outros@);
                    let ghost v = s@;
                    match s.kind {
                        SectionKind::Intro => {
                            intros.push(s);
                            assert(section_views(intros@) =~= section_views(i0).push(v));
                        },
                        SectionKind::Main => {
                            mains.push(s);
                            assert(section_views(mains@) =~= section_views(m0).push(v));
                        },
                        SectionKind::Outro => {
                            outros.push(s);
                            assert(section_views(outros@) =~= section_views(o0).push(v));
                        },
                    }
                },
                None => {},
            }
        }
        proof {
            assert(section_views(sections@) =~= Seq::empty());
            lemma_filter_none(section_views(sections@), fi);
            lemma_filter_none(section_views(sections@), fm);
            lemma_filter_none(section_views(sections@), fo);
        }
        move_reversed(&mut intros, sections);
        move_reversed(&mut mains, sections);
        move_reversed(&mut outros, sections);
        assert(section_views(sections@) =~= by_kind(all));
    }

    /// Sort the sections of every module.
    pub fn normalize(&mut self)
        ensures
            final(self)@ == old(self)@.normalized(),
            old(self)@.no_empty_parent() ==> final(self)@.well_formed(),
    {
        let ghost o = self@;
        let mut i: usize = 0;
        while i < self.assets.len()
            invariant
                0 <= i <= self.assets@.len(),
                self@.assets.len() == o.assets.len(),
                forall|k: int|
                    0 <= k < i ==> #[trigger] self@.assets[k] == asset_normal()(o.assets[k]),
                forall|k: int|
                    i <= k < o.assets.len() ==> #[trigger] self@.assets[k] == o.assets[k],
            decreases self.assets@.len() - i,
        {
            let ghost before = self@;
            assert(before.assets[i as int] == self.assets@[i as int]@);
            self.assets[i].normalize();
            assert(self@.assets =~= before.assets.update(
                i as int,
                asset_normal()(o.assets[i as int]),
            ));
            i += 1;
        }
        assert(self@.assets =~= o.assets.map_values(asset_normal()));
        proof {
            if o.no_empty_parent() {
                lemma_normalized(o);
            }
        }
    }

    /// What a section is called: "Main", or "Main 1", "Main 2" among several
    /// of its kind. Empty where there is no such section.
    pub fn section_display_label(&self, section_uuid: Uuid) -> (r: String)
        ensures
            r@ == self@.section_label(section_uuid),
    {
        proof {
            lemma_found_section(self@, section_uuid);
        }
        let path = match self.find_section(section_uuid) {
            Some(path) => path,
            None => {
                let empty = String::new();
                assert(empty@ =~= Seq::empty());
                return empty;
            },
        };
        let module = &self.assets[path.asset].pages[path.page].modules[path.module];
        let kind = module.sections[path.section].kind;
        let ghost f = kind_is(kind);
        let ghost all = module@.sections;
        let mut count: usize = 0;
        let mut ordinal: usize = 0;
        let mut i: usize = 0;
        while i < module.sections.len()
            invariant
                0 <= i <= module.sections@.len(),
                all == module@.sections,
                f == kind_is(kind),
                path.section < module.sections@.len(),
                count <= i,
                ordinal <= i,
                count == all.take(i as int).filter(f).len(),
                i > path.section ==> ordinal == all.take(path.section + 1).filter(f).len(),
                i <= path.section ==> ordinal == count,
            decreases module.sections@.len() - i,
        {
            proof {
                assert(all[i as int] == module.sections@[i as int]@);
                assert(all.take(i + 1) =~= all.take(i as int).push(all[i as int]));
                lemma_filter_push(all.take(i as int), f, all[i as int]);
            }
            if module.sections[i].kind == kind {
                count += 1;
                if i <= path.section {
                    ordinal += 1;
                }
            }
            i += 1;
        }
        assert(all.take(i as int) =~= all);
        if count <= 1 {
            kind.label().to_owned()
        } else {
            numbered(kind.label(), ordinal as u128)
        }
    }

    // Adding.

    /// New asset with one page, one module and one Main section. Returns its
    /// identity.
    pub fn add_asset(&mut self) -> (r: Uuid)
        ensures
            ({
                let a = final(self)@.assets.last();
                &&& final(self)@.assets == old(self)@.assets.push(a)
                &&& seeded_asset(
                    a,
                    numbered_text("Asset"@, old(self)@.assets.len() + 1),
                )
                &&& r == a.uuid
            }),
            old(self)@.well_formed() ==> final(self)@.well_formed(),
    {
        let n: u128 = self.assets.len() as u128 + 1;
        let ghost o = self@;
        let asset = Asset::seeded(numbered("Asset", n));
        let uuid = asset.uuid;
        let ghost a = asset@;
        self.assets.push(asset);
        proof {
            assert(self@.assets =~= o.assets.push(a));
            assert(asset_ok(a)) by {
                assert(page_ok(a.pages[0])) by {
                    lemma_seeded_ok(a.pages[0].modules[0], "Module 1"@);
                }
            }
            if o.well_formed() {
                assert forall|i: int| 0 <= i < self@.assets.len() implies asset_ok(
                    #[trigger] self@.assets[i],
                ) by {
                    assert(i == o.assets.len() || self@.assets[i] == o.assets[i]);
                }
            }
        }
        uuid
    }

    /// New page with one module and one Main section, at the end of the
    /// asset. Returns its identity; none without the asset.
    pub fn add_page(&mut self, asset_uuid: Uuid) -> (r: Option<Uuid>)
        ensures
            match old(self)@.find_asset(asset_uuid) {
                Some(a) => {
                    let x = old(self)@.assets[a];
                    let page = final(self)@.assets[a].pages.last();
                    &&& r == Some(page.uuid)
                    &&& seeded_page(page, numbered_text("Page"@, x.pages.len() + 1))
                    &&& final(self)@ == with_page_added(old(self)@, a, page)
                },
                None => r is None && final(self)@ == old(self)@,
            },
            old(self)@.well_formed() ==> final(self)@.well_formed(),
    {
        let ghost o = self@;
        proof {
            lemma_found_asset(o, asset_uuid);
        }
        let p = self.find_asset(asset_uuid)?;
        let n: u128 = self.assets[p.asset].pages.len() as u128 + 1;
        let page = Page::seeded(numbered("Page", n));
        let uuid = page.uuid;
        let ghost pg = page@;
        let ghost x = o.assets[p@];
        let ghost y = AssetView { pages: x.pages.push(pg), ..x };
        self.assets[p.asset].pages.push(page);
        proof {
            assert(self.assets@[p@]@ =~= y);
            assert(self@.assets =~= o.assets.update(p@, y));
            lemma_seeded_ok(pg.modules[0], "Module 1"@);
            if o.well_formed() {
                assert(asset_ok(x));
                assert forall|i: int| 0 <= i < y.pages.len() implies page_ok(
                    #[trigger] y.pages[i],
                ) by {
                    assert(i == x.pages.len() || y.pages[i] == x.pages[i]);
                }
                lemma_keep_asset(o, p@, y);
            }
        }
        Some(uuid)
    }

    /// New module with one Main section, right after the given one. Returns
    /// its identity; none without the given module.
    pub fn add_module_after(&mut self, module_uuid: Uuid) -> (r: Option<Uuid>)
        ensures
            match old(self)@.find_module(module_uuid) {
                Some((a, (p, m))) => {
                    let x = old(self)@.assets[a].pages[p];
                    let module = final(self)@.assets[a].pages[p].modules[m + 1];
                    &&& r == Some(module.uuid)
                    &&& seeded_module(module, numbered_text("Module"@, x.modules.len() + 1))
                    &&& final(self)@ == with_module_after(old(self)@, (a, (p, m)), module)
                },
                None => r is None && final(self)@ == old(self)@,
            },
            old(self)@.well_formed() ==> final(self)@.well_formed(),
    {
        let ghost o = self@;
        proof {
            lemma_found_module(o, module_uuid);
        }
        let loc = self.find_module(module_uuid)?;
        let n: u128 = self.assets[loc.asset].pages[loc.page].modules.len() as u128 + 1;
        let module = Module::seeded(numbered("Module", n));
        let uuid = module.uuid;
        let ghost md = module@;
        self.insert_module(loc, module);
        proof {
            lemma_seeded_ok(md, md.id);
            if o.well_formed() {
                lemma_insert_module_ok(o, loc@, md);
            }
        }
        Some(uuid)
    }

    /// Put `module` right after the one at `loc`.
    fn insert_module(&mut self, loc: ModulePath, module: Module)
        requires
            old(self)@.module_at(loc@.0, loc@.1.0, loc@.1.1) is Some,
        ensures
            final(self)@ == with_module_after(old(self)@, loc@, module@),
    {
        let ghost o = self@;
        let ghost md = module@;
        let ghost x = o.assets[loc@.0].pages[loc@.1.0];
        if let Some(page) = self.page_mut(PagePath { asset: loc.asset, page: loc.page }) {
            assert(loc.module < page.modules.len());
            page.modules.insert(loc.module + 1, module);
            assert(page@.modules =~= x.modules.insert(loc.module + 1, md));
        }
    }

    /// Put `page` right after the one at `loc`.
    fn insert_page(&mut self, loc: PagePath, page: Page)
        requires
            old(self)@.page_at(loc@.0, loc@.1) is Some,
        ensures
            final(self)@ == with_page_after(old(self)@, loc@, page@),
    {
        let ghost o = self@;
        let ghost pg = page@;
        let ghost x = o.assets[loc@.0];
        assert(loc.page < self.assets@[loc.asset as int].pages.len());
        self.assets[loc.asset].pages.insert(loc.page + 1, page);
        proof {
            let y = AssetView { pages: x.pages.insert(loc.page + 1, pg), ..x };
            assert(self.assets@[loc@.0]@ =~= y);
            assert(self@.assets =~= o.assets.update(loc@.0, y));
        }
    }

    /// Add a section of `kind` to a module, in canonical order. Returns its
    /// identity; none without the module.
    pub fn add_section(&mut self, module_uuid: Uuid, kind: SectionKind) -> (r: Option<Uuid>)
        ensures
            match old(self)@.find_module(module_uuid) {
                Some((a, (p, m))) => {
                    &&& r matches Some(u)
                    &&& random_marks(u.value)
                    &&& final(self)@ == with_section_added(
                        old(self)@,
                        (a, (p, m)),
                        empty_section(u, kind),
                    )
                },
                None => r is None && final(self)@ == old(self)@,
            },
            old(self)@.well_formed() ==> final(self)@.well_formed(),
    {
        let ghost o = self@;
        proof {
            lemma_found_module(o, module_uuid);
        }
        let loc = self.find_module(module_uuid)?;
        let section = Section::new(kind);
        let uuid = section.uuid;
        let ghost x = o.assets[loc@.0].pages[loc@.1.0].modules[loc@.1.1];
        let ghost more = x.sections.push(section@);
        if let Some(module) = self.module_mut(loc) {
            module.sections.push(section);
            assert(section_views(module.sections@) =~= more);
            Self::normalize_module_sections(&mut module.sections);
            assert(module@.sections =~= by_kind(more));
        }
        proof {
            lemma_by_kind(more);
            if o.well_formed() {
                lemma_keep_module(
                    o,
                    loc@.0,
                    loc@.1.0,
                    loc@.1.1,
                    ModuleView { sections: by_kind(more), ..x },
                );
            }
        }
        Some(uuid)
    }

    /// Append an empty pattern to a section. Returns its identity; none
    /// without the section.
    pub fn add_pattern(&mut self, section_uuid: Uuid) -> (r: Option<Uuid>)
        ensures
            match old(self)@.find_section(section_uuid) {
                Some((a, (p, (m, s)))) => {
                    let x = old(self)@.assets[a].pages[p].modules[m].sections[s];
                    &&& r matches Some(u)
                    &&& random_marks(u.value)
                    &&& final(self)@ == with_pattern_at(
                        old(self)@,
                        (a, (p, (m, s))),
                        x.patterns.len() as int,
                        empty_pattern(u, numbered_text("Pattern"@, x.patterns.len() + 1)),
                    )
                },
                None => r is None && final(self)@ == old(self)@,
            },
            old(self)@.well_formed() ==> final(self)@.well_formed(),
    {
        let ghost o = self@;
        proof {
            lemma_found_section(o, section_uuid);
        }
        let loc = self.find_section(section_uuid)?;
        let ghost x = o.assets[loc@.0].pages[loc@.1.0].modules[loc@.1.1.0].sections[loc@.1.1.1];
        let n: u128 = self.assets[loc.asset].pages[loc.page].modules[loc.module].sections[loc.section].patterns.len() as u128
            + 1;
        let pat = Pattern::new(numbered("Pattern", n));
        let uuid = pat.uuid;
        let ghost y = SectionView { patterns: x.patterns.push(pat@), ..x };
        assert(x.patterns.insert(x.patterns.len() as int, pat@) =~= x.patterns.push(pat@));
        if let Some(section) = self.section_mut(loc) {
            section.patterns.push(pat);
            assert(section@ =~= y);
        }
        proof {
            if o.well_formed() {
                lemma_keep_section(o, loc@.0, loc@.1.0, loc@.1.1.0, loc@.1.1.1, y);
            }
        }
        Some(uuid)
    }

    // Deleting: refused where a parent would become empty. Returns the
    // identities that went, the node's own first; none where refused.

    pub fn delete_asset(&mut self, uuid: Uuid) -> (r: Vec<Uuid>)
        ensures
            if old(self)@.asset_deletable(uuid) {
                let a = old(self)@.find_asset(uuid)->0;
                &&& r@ == asset_uuids()(old(self)@.assets[a])
                &&& final(self)@ == without_asset(old(self)@, a)
            } else {
                r@ == Seq::<Uuid>::empty() && final(self)@ == old(self)@
            },
            old(self)@.well_formed() ==> final(self)@.well_formed(),
    {
        let ghost o = self@;
        proof {
            lemma_found_asset(o, uuid);
        }
        if !self.can_delete_asset(uuid) {
            return Vec::new();
        }
        match self.find_asset(uuid) {
            Some(p) => {
                let removed = collect_asset_uuids(&self.assets[p.asset]);
                self.assets.remove(p.asset);
                proof {
                    assert(self@.assets =~= o.assets.remove(p@));
                    if o.well_formed() {
                        assert forall|i: int| 0 <= i < self@.assets.len() implies asset_ok(
                            #[trigger] self@.assets[i],
                        ) by {
                            assert(self@.assets[i] == o.assets[if i < p@ {
                                i
                            } else {
                                i + 1
                            }]);
                        }
                    }
                }
                removed
            },
            None => Vec::new(),
        }
    }

    pub fn delete_page(&mut self, uuid: Uuid) -> (r: Vec<Uuid>)
        ensures
            if old(self)@.page_deletable(uuid) {
                let (a, p) = old(self)@.find_page(uuid)->0;
                &&& r@ == page_uuids()(old(self)@.assets[a].pages[p])
                &&& final(self)@ == without_page(old(self)@, a, p)
            } else {
                r@ == Seq::<Uuid>::empty() && final(self)@ == old(self)@
            },
            old(self)@.well_formed() ==> final(self)@.well_formed(),
    {
        let ghost o = self@;
        proof {
            lemma_found_page(o, uuid);
        }
        if !self.can_delete_page(uuid) {
            return Vec::new();
        }
        match self.find_page(uuid) {
            Some(p) => {
                let removed = collect_page_uuids(&self.assets[p.asset].pages[p.page]);
                self.assets[p.asset].pages.remove(p.page);
                proof {
                    let x = o.assets[p@.0];
                    let y = AssetView { pages: x.pages.remove(p@.1), ..x };
                    assert(self.assets@[p@.0]@ =~= y);
                    assert(self@.assets =~= o.assets.update(p@.0, y));
                    if o.well_formed() {
                        assert forall|i: int| 0 <= i < y.pages.len() implies page_ok(
                            #[trigger] y.pages[i],
                        ) by {
                            assert(y.pages[i] == x.pages[if i < p@.1 {
                                i
                            } else {
                                i + 1
                            }]);
                        }
                        lemma_keep_asset(o, p@.0, y);
                    }
                }
                removed
            },
            None => Vec::new(),
        }
    }

    pub fn delete_module(&mut self, uuid: Uuid) -> (r: Vec<Uuid>)
        ensures
            if old(self)@.module_deletable(uuid) {
                let (a, (p, m)) = old(self)@.find_module(uuid)->0;
                &&& r@ == module_uuids()(old(self)@.assets[a].pages[p].modules[m])
                &&& final(self)@ == without_module(old(self)@, a, p, m)
            } else {
                r@ == Seq::<Uuid>::empty() && final(self)@ == old(self)@
            },
            old(self)@.well_formed() ==> final(self)@.well_formed(),
    {
        let ghost o = self@;
        proof {
            lemma_found_module(o, uuid);
        }
        if !self.can_delete_module(uuid) {
            return Vec::new();
        }
        match self.find_module(uuid) {
            Some(p) => {
                let removed = collect_module_uuids(
                    &self.assets[p.asset].pages[p.page].modules[p.module],
                );
                let ghost x = o.assets[p@.0].pages[p@.1.0];
                let ghost y = PageView { modules: x.modules.remove(p@.1.1), ..x };
                if let Some(page) = self.page_mut(PagePath { asset: p.asset, page: p.page }) {
                    page.modules.remove(p.module);
                    assert(page@ =~= y);
                }
                proof {
                    if o.well_formed() {
                        assert(page_ok(x));
                        assert forall|i: int| 0 <= i < y.modules.len() implies module_ok(
                            #[trigger] y.modules[i],
                        ) by {
                            assert(y.modules[i] == x.modules[if i < p@.1.1 {
                                i
                            } else {
                                i + 1
                            }]);
                        }
                        lemma_keep_page(o, p@.0, p@.1.0, y);
                    }
                }
                removed
            },
            None => Vec::new(),
        }
    }

    pub fn delete_section(&mut self, uuid: Uuid) -> (r: Vec<Uuid>)
        ensures
            if old(self)@.section_deletable(uuid) {
                let (a, (p, (m, s))) = old(self)@.find_section(uuid)->0;
                &&& r@ == section_uuids()(old(self)@.assets[a].pages[p].modules[m].sections[s])
                &&& final(self)@ == without_section(old(self)@, a, p, m, s)
            } else {
                r@ == Seq::<Uuid>::empty() && final(self)@ == old(self)@
            },
            old(self)@.well_formed() ==> final(self)@.well_formed(),
    {
        let ghost o = self@;
        proof {
            lemma_found_section(o, uuid);
        }
        if !self.can_delete_section(uuid) {
            return Vec::new();
        }
        match self.find_section(uuid) {
            Some(p) => {
                let removed = collect_section_uuids(
                    &self.assets[p.asset].pages[p.page].modules[p.module].sections[p.section],
                );
                let ghost x = o.assets[p@.0].pages[p@.1.0].modules[p@.1.1.0];
                let ghost y = ModuleView { sections: x.sections.remove(p@.1.1.1), ..x };
                if let Some(module) = self.module_mut(
                    ModulePath { asset: p.asset, page: p.page, module: p.module },
                ) {
                    module.sections.remove(p.section);
                    assert(module@ =~= y);
                }
                proof {
                    if o.well_formed() {
                        assert(page_ok(o.assets[p@.0].pages[p@.1.0]));
                        assert(module_ok(x));
                        assert forall|i: int, j: int| 0 <= i <= j < y.sections.len() implies (
                        #[trigger] y.sections[i]).kind.order() <= (
                        #[trigger] y.sections[j]).kind.order() by {
                            let i2 = if i < p@.1.1.1 {
                                i
                            } else {
                                i + 1
                            };
                            let j2 = if j < p@.1.1.1 {
                                j
                            } else {
                                j + 1
                            };
                            assert(y.sections[i] == x.sections[i2]);
                            assert(y.sections[j] == x.sections[j2]);
                        }
                        lemma_keep_module(o, p@.0, p@.1.0, p@.1.1.0, y);
                    }
                }
                removed
            },
            None => Vec::new(),
        }
    }

    /// Delete a pattern; a section may be left without any. Returns whether
    /// it was there.
    pub fn delete_pattern(&mut self, uuid: Uuid) -> (r: bool)
        ensures
            match old(self)@.find_pattern(uuid) {
                Some((a, (p, (m, (s, t))))) => {
                    &&& r
                    &&& final(self)@ == without_pattern(old(self)@, a, p, m, s, t)
                },
                None => !r && final(self)@ == old(self)@,
            },
            old(self)@.well_formed() ==> final(self)@.well_formed(),
    {
        let ghost o = self@;
        proof {
            lemma_found_pattern(o, uuid);
        }
        match self.find_pattern_path(uuid) {
            Some(p) => {
                let ghost x =
                    o.assets[p@.0].pages[p@.1.0].modules[p@.1.1.0].sections[p@.1.1.1.0];
                let ghost y = SectionView { patterns: x.patterns.remove(p@.1.1.1.1), ..x };
                if let Some(section) = self.section_mut(
                    SectionPath {
                        asset: p.asset,
                        page: p.page,
                        module: p.module,
                        section: p.section,
                    },
                ) {
                    section.patterns.remove(p.pattern);
                    assert(section@ =~= y);
                }
                proof {
                    if o.well_formed() {
                        lemma_keep_section(o, p@.0, p@.1.0, p@.1.1.0, p@.1.1.1.0, y);
                    }
                }
                true
            },
            None => false,
        }
    }

    // Copying: a duplicate keeps the content's identity, a clone is content
    // of its own. Returns the identity of the copy.

    /// Duplicate a section right after the original, with new identities on
    /// it and its patterns.
    pub fn duplicate_section_right(&mut self, uuid: Uuid) -> (r: Option<Uuid>)
        ensures
            match old(self)@.find_section(uuid) {
                Some((a, (p, (m, s)))) => {
                    let x = old(self)@.assets[a].pages[p].modules[m];
                    exists|copy: SectionView|
                        {
                            &&& #[trigger] fresh_section(x.sections[s], copy)
                            &&& r == Some(copy.uuid)
                            &&& final(self)@ == with_section_after(
                                old(self)@,
                                (a, (p, (m, s))),
                                copy,
                            )
                        }
                },
                None => r is None && final(self)@ == old(self)@,
            },
            old(self)@.well_formed() ==> final(self)@.well_formed(),
    {
        let ghost o = self@;
        proof {
            lemma_found_section(o, uuid);
        }
        let p = self.find_section(uuid)?;
        let ghost x = o.assets[p@.0].pages[p@.1.0].modules[p@.1.1.0];
        let mut copy =
            self.assets[p.asset].pages[p.page].modules[p.module].sections[p.section].clone();
        assert(copy@ == x.sections[p@.1.1.1]);
        freshen_section(&mut copy);
        let new_uuid = copy.uuid;
        let ghost c = copy@;
        let ghost more = x.sections.insert(p.section + 1, c);
        if let Some(module) = self.module_mut(
            ModulePath { asset: p.asset, page: p.page, module: p.module },
        ) {
            assert(p.section < module.sections.len());
            module.sections.insert(p.section + 1, copy);
            assert(section_views(module.sections@) =~= more);
            Self::normalize_module_sections(&mut module.sections);
            assert(module@.sections =~= by_kind(more));
        }
        proof {
            assert(fresh_section(x.sections[p@.1.1.1], c));
            lemma_by_kind(more);
            if o.well_formed() {
                lemma_keep_module(
                    o,
                    p@.0,
                    p@.1.0,
                    p@.1.1.0,
                    ModuleView { sections: by_kind(more), ..x },
                );
            }
        }
        Some(new_uuid)
    }

    /// Duplicate a module right after the original. It shares the content of
    /// the original.
    pub fn duplicate_module_right(&mut self, uuid: Uuid) -> (r: Option<Uuid>)
        ensures
            match old(self)@.find_module(uuid) {
                Some((a, (p, m))) => {
                    let copy = final(self)@.assets[a].pages[p].modules[m + 1];
                    &&& r == Some(copy.uuid)
                    &&& fresh_module(old(self)@.assets[a].pages[p].modules[m], copy, false)
                    &&& final(self)@ == with_module_after(old(self)@, (a, (p, m)), copy)
                },
                None => r is None && final(self)@ == old(self)@,
            },
            old(self)@.well_formed() ==> final(self)@.well_formed(),
    {
        let ghost o = self@;
        proof {
            lemma_found_module(o, uuid);
        }
        let p = self.find_module(uuid)?;
        let ghost x = o.assets[p@.0].pages[p@.1.0].modules[p@.1.1];
        let mut copy = self.assets[p.asset].pages[p.page].modules[p.module].clone();
        assert(copy@ == x);
        freshen_module(&mut copy, false);
        let new_uuid = copy.uuid;
        let ghost c = copy@;
        self.insert_module(p, copy);
        proof {
            if o.well_formed() {
                assert(page_ok(o.assets[p@.0].pages[p@.1.0]));
                lemma_fresh_module_ok(x, c, false);
                lemma_insert_module_ok(o, p@, c);
            }
        }
        Some(new_uuid)
    }

    /// Clone a module right after the original. It is content of its own and
    /// is named "… Copy".
    pub fn clone_module_right(&mut self, uuid: Uuid) -> (r: Option<Uuid>)
        ensures
            match old(self)@.find_module(uuid) {
                Some((a, (p, m))) => {
                    let orig = old(self)@.assets[a].pages[p].modules[m];
                    let copy = final(self)@.assets[a].pages[p].modules[m + 1];
                    &&& r == Some(copy.uuid)
                    &&& copy.id == orig.id + " Copy"@
                    &&& fresh_module(orig, (ModuleView { id: orig.id, ..copy }), true)
                    &&& final(self)@ == with_module_after(old(self)@, (a, (p, m)), copy)
                },
                None => r is None && final(self)@ == old(self)@,
            },
            old(self)@.well_formed() ==> final(self)@.well_formed(),
    {
        let ghost o = self@;
        proof {
            lemma_found_module(o, uuid);
        }
        let p = self.find_module(uuid)?;
        let ghost x = o.assets[p@.0].pages[p@.1.0].modules[p@.1.1];
        let mut copy = self.assets[p.asset].pages[p.page].modules[p.module].clone();
        assert(copy@ == x);
        freshen_module(&mut copy, true);
        let ghost c0 = copy@;
        copy.id = join(copy.id.as_str(), " Copy");
        let new_uuid = copy.uuid;
        let ghost c = copy@;
        assert(c =~= (ModuleView { id: c.id, ..c0 }));
        assert(c0 =~= (ModuleView { id: x.id, ..c }));
        self.insert_module(p, copy);
        proof {
            if o.well_formed() {
                assert(page_ok(o.assets[p@.0].pages[p@.1.0]));
                lemma_fresh_module_ok(x, c0, true);
                assert(module_ok(c));
                lemma_insert_module_ok(o, p@, c);
            }
        }
        Some(new_uuid)
    }

    /// Duplicate a page right after the original. It and its modules share
    /// the content of the original.
    pub fn duplicate_page_right(&mut self, uuid: Uuid) -> (r: Option<Uuid>)
        ensures
            match old(self)@.find_page(uuid) {
                Some((a, p)) => {
                    let copy = final(self)@.assets[a].pages[p + 1];
                    &&& r == Some(copy.uuid)
                    &&& fresh_page(old(self)@.assets[a].pages[p], copy, false)
                    &&& final(self)@ == with_page_after(old(self)@, (a, p), copy)
                },
                None => r is None && final(self)@ == old(self)@,
            },
            old(self)@.well_formed() ==> final(self)@.well_formed(),
    {
        let ghost o = self@;
        proof {
            lemma_found_page(o, uuid);
        }
        let p = self.find_page(uuid)?;
        let ghost x = o.assets[p@.0].pages[p@.1];
        let mut copy = self.assets[p.asset].pages[p.page].clone();
        assert(copy@ == x);
        freshen_page(&mut copy, false);
        let new_uuid = copy.uuid;
        let ghost c = copy@;
        self.insert_page(p, copy);
        proof {
            if o.well_formed() {
                lemma_fresh_page_ok(x, c, false);
                lemma_insert_page_ok(o, p@, c);
            }
        }
        Some(new_uuid)
    }

    /// Clone a page right after the original. It and its modules are content
    /// of their own, and it is named "… Copy".
    pub fn clone_page_right(&mut self, uuid: Uuid) -> (r: Option<Uuid>)
        ensures
            match old(self)@.find_page(uuid) {
                Some((a, p)) => {
                    let orig = old(self)@.assets[a].pages[p];
                    let copy = final(self)@.assets[a].pages[p + 1];
                    &&& r == Some(copy.uuid)
                    &&& copy.id == orig.id + " Copy"@
                    &&& fresh_page(orig, (PageView { id: orig.id, ..copy }), true)
                    &&& final(self)@ == with_page_after(old(self)@, (a, p), copy)
                },
                None => r is None && final(self)@ == old(self)@,
            },
            old(self)@.well_formed() ==> final(self)@.well_formed(),
    {
        let ghost o = self@;
        proof {
            lemma_found_page(o, uuid);
        }
        let p = self.find_page(uuid)?;
        let ghost x = o.assets[p@.0].pages[p@.1];
        let mut copy = self.assets[p.asset].pages[p.page].clone();
        assert(copy@ == x);
        freshen_page(&mut copy, true);
        let ghost c0 = copy@;
        copy.id = join(copy.id.as_str(), " Copy");
        let new_uuid = copy.uuid;
        let ghost c = copy@;
        assert(c =~= (PageView { id: c.id, ..c0 }));
        assert(c0 =~= (PageView { id: x.id, ..c }));
        self.insert_page(p, copy);
        proof {
            if o.well_formed() {
                lemma_fresh_page_ok(x, c0, true);
                assert(page_ok(c)) by {
                    assert forall|i: int| 0 <= i < c.modules.len() implies module_ok(
                        #[trigger] c.modules[i],
                    ) by {
                        assert(module_ok(c0.modules[i]));
                    }
                }
                lemma_insert_page_ok(o, p@, c);
            }
        }
        Some(new_uuid)
    }

    /// Clone a pattern right after the original, named "… Copy".
    pub fn clone_pattern(&mut self, uuid: Uuid) -> (r: Option<Uuid>)
        ensures
            match old(self)@.find_pattern(uuid) {
                Some((a, (p, (m, (s, t))))) => {
                    let x = old(self)@.assets[a].pages[p].modules[m].sections[s];
                    let orig = x.patterns[t];
                    &&& r matches Some(u)
                    &&& random_marks(u.value)
                    &&& final(self)@ == with_pattern_at(
                        old(self)@,
                        (a, (p, (m, s))),
                        t + 1,
                        PatternView { uuid: u, id: orig.id + " Copy"@, ..orig },
                    )
                },
                None => r is None && final(self)@ == old(self)@,
            },
            old(self)@.well_formed() ==> final(self)@.well_formed(),
    {
        let ghost o = self@;
        proof {
            lemma_found_pattern(o, uuid);
        }
        let p = self.find_pattern_path(uuid)?;
        let ghost x = o.assets[p@.0].pages[p@.1.0].modules[p@.1.1.0].sections[p@.1.1.1.0];
        let mut copy =
            self.assets[p.asset].pages[p.page].modules[p.module].sections[p.section].patterns[p.pattern].clone();
        assert(copy@ == x.patterns[p@.1.1.1.1]);
        freshen_pattern_with(&mut copy, Uuid::new_v4());
        copy.id = join(copy.id.as_str(), " Copy");
        let new_uuid = copy.uuid;
        let ghost y = SectionView { patterns: x.patterns.insert(p.pattern + 1, copy@), ..x };
        if let Some(section) = self.section_mut(
            SectionPath { asset: p.asset, page: p.page, module: p.module, section: p.section },
        ) {
            assert(p.pattern < section.patterns.len());
            section.patterns.insert(p.pattern + 1, copy);
            assert(section@ =~= y);
        }
        proof {
            if o.well_formed() {
                lemma_keep_section(o, p@.0, p@.1.0, p@.1.1.0, p@.1.1.1.0, y);
            }
        }
        Some(new_uuid)
    }
}

// Changes of one pattern. Nothing happens where it is not there.

pub open spec fn enabled_as(on: bool) -> spec_fn(PatternView) -> PatternView {
    |p: PatternView| PatternView { enabled: on, ..p }
}

pub open spec fn enabled_flipped() -> spec_fn(PatternView) -> PatternView {
    |p: PatternView| PatternView { enabled: !p.enabled, ..p }
}

pub open spec fn ref_edit_as(on: bool) -> spec_fn(PatternView) -> PatternView {
    |p: PatternView| PatternView { ref_edit: on, ..p }
}

pub open spec fn ref_edit_flipped() -> spec_fn(PatternView) -> PatternView {
    |p: PatternView| PatternView { ref_edit: !p.ref_edit, ..p }
}

/// Named `name`, or "Pattern" where that is blank.
pub open spec fn renamed(name: Seq<char>) -> spec_fn(PatternView) -> PatternView {
    |p: PatternView|
        PatternView {
            id: if blank(name) {
                "Pattern"@
            } else {
                name
            },
            ..p
        }
}

pub open spec fn looped(
    start: u64,
    end: u64,
    looping: bool,
    xfade: u64,
    xoffset: i64,
) -> spec_fn(PatternView) -> PatternView {
    |p: PatternView|
        PatternView { loop_start: start, loop_end: end, looping, xfade, xoffset, ..p }
}

pub open spec fn with_in_region(r: Region) -> spec_fn(PatternView) -> PatternView {
    |p: PatternView| PatternView { in_regions: p.in_regions.push(r), ..p }
}

pub open spec fn with_out_region(r: Region) -> spec_fn(PatternView) -> PatternView {
    |p: PatternView| PatternView { out_regions: p.out_regions.push(r), ..p }
}

/// Without its in-region at `i`, where there is one.
pub open spec fn without_in_region(i: int) -> spec_fn(PatternView) -> PatternView {
    |p: PatternView|
        if i < p.in_regions.len() {
            PatternView { in_regions: p.in_regions.remove(i), ..p }
        } else {
            p
        }
}

/// Without its out-region at `i`, where there is one.
pub open spec fn without_out_region(i: int) -> spec_fn(PatternView) -> PatternView {
    |p: PatternView|
        if i < p.out_regions.len() {
            PatternView { out_regions: p.out_regions.remove(i), ..p }
        } else {
            p
        }
}

impl Project {
    pub fn set_pattern_enabled(&mut self, uuid: Uuid, enabled: bool)
        ensures
            final(self)@ == old(self)@.edit_pattern(uuid, enabled_as(enabled)),
            old(self)@.well_formed() ==> final(self)@.well_formed(),
    {
        let ghost o = self@;
        if let Some(p) = self.find_pattern_mut(uuid) {
            p.enabled = enabled;
        }
        proof {
            assert(self@ =~= o.edit_pattern(uuid, enabled_as(enabled)));
            if o.well_formed() {
                lemma_keep_pattern(o, uuid, enabled_as(enabled));
            }
        }
    }

    pub fn toggle_pattern_enabled(&mut self, uuid: Uuid)
        ensures
            final(self)@ == old(self)@.edit_pattern(uuid, enabled_flipped()),
            old(self)@.well_formed() ==> final(self)@.well_formed(),
    {
        let ghost o = self@;
        if let Some(p) = self.find_pattern_mut(uuid) {
            p.enabled = !p.enabled;
        }
        proof {
            assert(self@ =~= o.edit_pattern(uuid, enabled_flipped()));
            if o.well_formed() {
                lemma_keep_pattern(o, uuid, enabled_flipped());
            }
        }
    }

    pub fn rename_pattern(&mut self, uuid: Uuid, name: String)
        ensures
            final(self)@ == old(self)@.edit_pattern(uuid, renamed(name@)),
            old(self)@.well_formed() ==> final(self)@.well_formed(),
    {
        let ghost o = self@;
        if let Some(p) = self.find_pattern_mut(uuid) {
            p.id = if is_blank(name.as_str()) {
                "Pattern".to_owned()
            } else {
                name
            };
        }
        proof {
            assert(self@ =~= o.edit_pattern(uuid, renamed(name@)));
            if o.well_formed() {
                lemma_keep_pattern(o, uuid, renamed(name@));
            }
        }
    }

    pub fn set_loop(&mut self, uuid: Uuid, start: u64, end: u64, looping: bool, xfade: u64, xoffset: i64)
        ensures
            final(self)@ == old(self)@.edit_pattern(uuid, looped(start, end, looping, xfade, xoffset)),
            old(self)@.well_formed() ==> final(self)@.well_formed(),
    {
        let ghost o = self@;
        if let Some(p) = self.find_pattern_mut(uuid) {
            p.loop_start = start;
            p.loop_end = end;
            p.looping = looping;
            p.xfade = xfade;
            p.xoffset = xoffset;
        }
        proof {
            assert(self@ =~= o.edit_pattern(uuid, looped(start, end, looping, xfade, xoffset)));
            if o.well_formed() {
                lemma_keep_pattern(o, uuid, looped(start, end, looping, xfade, xoffset));
            }
        }
    }

    pub fn add_in_region(&mut self, pattern_uuid: Uuid, region: Region)
        ensures
            final(self)@ == old(self)@.edit_pattern(pattern_uuid, with_in_region(region)),
            old(self)@.well_formed() ==> final(self)@.well_formed(),
    {
        let ghost o = self@;
        if let Some(p) = self.find_pattern_mut(pattern_uuid) {
            p.in_regions.push(region);
        }
        proof {
            assert(self@ =~= o.edit_pattern(pattern_uuid, with_in_region(region)));
            if o.well_formed() {
                lemma_keep_pattern(o, pattern_uuid, with_in_region(region));
            }
        }
    }

    pub fn add_out_region(&mut self, pattern_uuid: Uuid, region: Region)
        ensures
            final(self)@ == old(self)@.edit_pattern(pattern_uuid, with_out_region(region)),
            old(self)@.well_formed() ==> final(self)@.well_formed(),
    {
        let ghost o = self@;
        if let Some(p) = self.find_pattern_mut(pattern_uuid) {
            p.out_regions.push(region);
        }
        proof {
            assert(self@ =~= o.edit_pattern(pattern_uuid, with_out_region(region)));
            if o.well_formed() {
                lemma_keep_pattern(o, pattern_uuid, with_out_region(region));
            }
        }
    }

    pub fn remove_in_region(&mut self, pattern_uuid: Uuid, index: usize)
        ensures
            final(self)@ == old(self)@.edit_pattern(pattern_uuid, without_in_region(index as int)),
            old(self)@.well_formed() ==> final(self)@.well_formed(),
    {
        let ghost o = self@;
        if let Some(p) = self.find_pattern_mut(pattern_uuid) {
            if index < p.in_regions.len() {
                p.in_regions.remove(index);
            }
        }
        proof {
            assert(self@ =~= o.edit_pattern(pattern_uuid, without_in_region(index as int)));
            if o.well_formed() {
                lemma_keep_pattern(o, pattern_uuid, without_in_region(index as int));
            }
        }
    }

    pub fn remove_out_region(&mut self, pattern_uuid: Uuid, index: usize)
        ensures
            final(self)@ == old(self)@.edit_pattern(pattern_uuid, without_out_region(index as int)),
            old(self)@.well_formed() ==> final(self)@.well_formed(),
    {
        let ghost o = self@;
        if let Some(p) = self.find_pattern_mut(pattern_uuid) {
            if index < p.out_regions.len() {
                p.out_regions.remove(index);
            }
        }
        proof {
            assert(self@ =~= o.edit_pattern(pattern_uuid, without_out_region(index as int)));
            if o.well_formed() {
                lemma_keep_pattern(o, pattern_uuid, without_out_region(index as int));
            }
        }
    }

    pub fn set_ref_edit(&mut self, pattern_uuid: Uuid, on: bool)
        ensures
            final(self)@ == old(self)@.edit_pattern(pattern_uuid, ref_edit_as(on)),
            old(self)@.well_formed() ==> final(self)@.well_formed(),
    {
        let ghost o = self@;
        if let Some(p) = self.find_pattern_mut(pattern_uuid) {
            p.ref_edit = on;
        }
        proof {
            assert(self@ =~= o.edit_pattern(pattern_uuid, ref_edit_as(on)));
            if o.well_formed() {
                lemma_keep_pattern(o, pattern_uuid, ref_edit_as(on));
            }
        }
    }

    pub fn toggle_ref_edit(&mut self, pattern_uuid: Uuid)
        ensures
            final(self)@ == old(self)@.edit_pattern(pattern_uuid, ref_edit_flipped()),
            old(self)@.well_formed() ==> final(self)@.well_formed(),
    {
        let ghost o = self@;
        if let Some(p) = self.find_pattern_mut(pattern_uuid) {
            p.ref_edit = !p.ref_edit;
        }
        proof {
            assert(self@ =~= o.edit_pattern(pattern_uuid, ref_edit_flipped()));
            if o.well_formed() {
                lemma_keep_pattern(o, pattern_uuid, ref_edit_flipped());
            }
        }
    }
}

/// The contents of sections.
pub open spec fn section_views(s: Seq<Section>) -> Seq<SectionView> {
    s.map_values(|x: Section| x@)
}

/// The tree with `x` right after the module at `loc`.
pub open spec fn with_module_after(
    v: ProjectView,
    loc: (int, (int, int)),
    x: ModuleView,
) -> ProjectView {
    let page = v.assets[loc.0].pages[loc.1.0];
    v.with_page(
        loc.0,
        loc.1.0,
        PageView { modules: page.modules.insert(loc.1.1 + 1, x), ..page },
    )
}

/// The tree with `x` right after the page at `loc`.
pub open spec fn with_page_after(v: ProjectView, loc: (int, int), x: PageView) -> ProjectView {
    let asset = v.assets[loc.0];
    v.with_asset(loc.0, AssetView { pages: asset.pages.insert(loc.1 + 1, x), ..asset })
}

/// The tree with `x` at the end of the asset at `a`.
pub open spec fn with_page_added(v: ProjectView, a: int, x: PageView) -> ProjectView {
    v.with_asset(a, AssetView { pages: v.assets[a].pages.push(x), ..v.assets[a] })
}

/// The tree with a section added to the module at `loc`.
pub open spec fn with_section_added(
    v: ProjectView,
    loc: (int, (int, int)),
    x: SectionView,
) -> ProjectView {
    let y = v.assets[loc.0].pages[loc.1.0].modules[loc.1.1];
    v.with_module(
        loc.0,
        loc.1.0,
        loc.1.1,
        ModuleView { sections: by_kind(y.sections.push(x)), ..y },
    )
}

/// The tree with `x` right after the section at `loc`.
pub open spec fn with_section_after(
    v: ProjectView,
    loc: (int, (int, (int, int))),
    x: SectionView,
) -> ProjectView {
    let y = v.assets[loc.0].pages[loc.1.0].modules[loc.1.1.0];
    v.with_module(
        loc.0,
        loc.1.0,
        loc.1.1.0,
        ModuleView { sections: by_kind(y.sections.insert(loc.1.1.1 + 1, x)), ..y },
    )
}

/// The tree with `x` as pattern `i` of the section at `loc`.
pub open spec fn with_pattern_at(
    v: ProjectView,
    loc: (int, (int, (int, int))),
    i: int,
    x: PatternView,
) -> ProjectView {
    let y = v.assets[loc.0].pages[loc.1.0].modules[loc.1.1.0].sections[loc.1.1.1];
    v.with_section(
        loc.0,
        loc.1.0,
        loc.1.1.0,
        loc.1.1.1,
        SectionView { patterns: y.patterns.insert(i, x), ..y },
    )
}

/// The tree without the asset at `a`.
pub open spec fn without_asset(v: ProjectView, a: int) -> ProjectView {
    ProjectView { assets: v.assets.remove(a) }
}

/// The tree without the page at `a`, `p`.
pub open spec fn without_page(v: ProjectView, a: int, p: int) -> ProjectView {
    let x = v.assets[a];
    v.with_asset(a, AssetView { pages: x.pages.remove(p), ..x })
}

/// The tree without the module at `a`, `p`, `m`.
pub open spec fn without_module(v: ProjectView, a: int, p: int, m: int) -> ProjectView {
    let x = v.assets[a].pages[p];
    v.with_page(a, p, PageView { modules: x.modules.remove(m), ..x })
}

/// The tree without the section at `a`, `p`, `m`, `s`.
pub open spec fn without_section(v: ProjectView, a: int, p: int, m: int, s: int) -> ProjectView {
    let x = v.assets[a].pages[p].modules[m];
    v.with_module(a, p, m, ModuleView { sections: x.sections.remove(s), ..x })
}

/// The tree without the pattern at `a`, `p`, `m`, `s`, `t`.
pub open spec fn without_pattern(
    v: ProjectView,
    a: int,
    p: int,
    m: int,
    s: int,
    t: int,
) -> ProjectView {
    let x = v.assets[a].pages[p].modules[m].sections[s];
    v.with_section(a, p, m, s, SectionView { patterns: x.patterns.remove(t), ..x })
}

/// Move everything from `from` to the end of `to`, the last first.
fn move_reversed(from: &mut Vec<Section>, to: &mut Vec<Section>)
    ensures
        section_views(final(to)@) == section_views(old(to)@) + section_views(old(from)@).reverse(),
{
    let ghost f0 = section_views(from@);
    let ghost t0 = section_views(to@);
    while from.len() > 0
        invariant
            t0 + f0.reverse() =~= section_views(to@) + section_views(from@).reverse(),
        decreases from@.len(),
    {
        let ghost fb = from@;
        let ghost tb = to@;
        if let Some(s) = from.pop() {
            let ghost v = s@;
            to.push(s);
            assert(section_views(fb) =~= section_views(from@).push(v));
            assert(section_views(to@) =~= section_views(tb).push(v));
        }
    }
}

pub proof fn lemma_insert_module_ok(v: ProjectView, loc: (int, (int, int)), x: ModuleView)
    requires
        v.well_formed(),
        v.module_at(loc.0, loc.1.0, loc.1.1) is Some,
        module_ok(x),
    ensures
        with_module_after(v, loc, x).well_formed(),
{
    let page = v.assets[loc.0].pages[loc.1.0];
    let y = PageView { modules: page.modules.insert(loc.1.1 + 1, x), ..page };
    assert(page_ok(page));
    assert forall|i: int| 0 <= i < y.modules.len() implies module_ok(#[trigger] y.modules[i]) by {
        let k = loc.1.1 + 1;
        assert(i == k || y.modules[i] == page.modules[if i < k {
            i
        } else {
            i - 1
        }]);
    }
    lemma_keep_page(v, loc.0, loc.1.0, y);
}

pub proof fn lemma_insert_page_ok(v: ProjectView, loc: (int, int), x: PageView)
    requires
        v.well_formed(),
        v.page_at(loc.0, loc.1) is Some,
        page_ok(x),
    ensures
        with_page_after(v, loc, x).well_formed(),
{
    let asset = v.assets[loc.0];
    let y = AssetView { pages: asset.pages.insert(loc.1 + 1, x), ..asset };
    assert forall|i: int| 0 <= i < y.pages.len() implies page_ok(#[trigger] y.pages[i]) by {
        let k = loc.1 + 1;
        assert(i == k || y.pages[i] == asset.pages[if i < k {
            i
        } else {
            i - 1
        }]);
    }
    lemma_keep_asset(v, loc.0, y);
}

} // verus!
