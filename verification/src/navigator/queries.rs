//! Reading the tree: finding nodes by identity, fetching them by path,
//! collecting patterns, and the guards on deletion.
//!
//! A look-up by identity gives a path of indices; a path gives the node.
//! Where an identity stands in several places, the first in reading order
//! counts.
use vstd::prelude::*;

use crate::ids::Uuid;
use crate::navigator::model::Asset;
use crate::navigator::model::AssetView;
use crate::navigator::model::Module;
use crate::navigator::model::ModuleView;
use crate::navigator::model::Page;
use crate::navigator::model::PageView;
use crate::navigator::model::Pattern;
use crate::navigator::model::PatternView;
use crate::navigator::model::Project;
use crate::navigator::model::ProjectView;
use crate::navigator::model::Section;
use crate::navigator::model::SectionView;
use crate::seqs::first_hit;
use crate::seqs::first_index;
use crate::seqs::flat;
use crate::seqs::lemma_first_hit;
use crate::seqs::lemma_first_hit_found;
use crate::seqs::lemma_first_index;
use crate::seqs::lemma_first_index_found;
use crate::seqs::lemma_flat_take;
use crate::seqs::lemma_no_hit;
use crate::seqs::lemma_total_take;
use crate::seqs::total;

verus! {

#[derive(Debug, Clone, Copy, PartialEq, Eq, Structural)]
pub struct AssetPath {
    pub asset: usize,
}

#[derive(Debug, Clone, Copy, PartialEq, Eq, Structural)]
pub struct PagePath {
    pub asset: usize,
    pub page: usize,
}

#[derive(Debug, Clone, Copy, PartialEq, Eq, Structural)]
pub struct ModulePath {
    pub asset: usize,
    pub page: usize,
    pub module: usize,
}

#[derive(Debug, Clone, Copy, PartialEq, Eq, Structural)]
pub struct SectionPath {
    pub asset: usize,
    pub page: usize,
    pub module: usize,
    pub section: usize,
}

#[derive(Debug, Clone, Copy, PartialEq, Eq, Structural)]
pub struct PatternPath {
    pub asset: usize,
    pub page: usize,
    pub module: usize,
    pub section: usize,
    pub pattern: usize,
}

impl View for AssetPath {
    type V = int;

    open spec fn view(&self) -> int {
        self.asset as int
    }
}

impl View for PagePath {
    type V = (int, int);

    open spec fn view(&self) -> (int, int) {
        (self.asset as int, self.page as int)
    }
}

impl View for ModulePath {
    type V = (int, (int, int));

    open spec fn view(&self) -> (int, (int, int)) {
        (self.asset as int, (self.page as int, self.module as int))
    }
}

impl View for SectionPath {
    type V = (int, (int, (int, int)));

    open spec fn view(&self) -> (int, (int, (int, int))) {
        (self.asset as int, (self.page as int, (self.module as int, self.section as int)))
    }
}

impl View for PatternPath {
    type V = (int, (int, (int, (int, int))));

    open spec fn view(&self) -> (int, (int, (int, (int, int)))) {
        (
            self.asset as int,
            (self.page as int, (self.module as int, (self.section as int, self.pattern as int))),
        )
    }
}

// Where an identity stands in a list of nodes of its own level.

pub open spec fn asset_is(u: Uuid) -> spec_fn(AssetView) -> bool {
    |a: AssetView| a.uuid == u
}

pub open spec fn page_is(u: Uuid) -> spec_fn(PageView) -> bool {
    |p: PageView| p.uuid == u
}

pub open spec fn module_is(u: Uuid) -> spec_fn(ModuleView) -> bool {
    |m: ModuleView| m.uuid == u
}

pub open spec fn section_is(u: Uuid) -> spec_fn(SectionView) -> bool {
    |s: SectionView| s.uuid == u
}

pub open spec fn pattern_is(u: Uuid) -> spec_fn(PatternView) -> bool {
    |p: PatternView| p.uuid == u
}

// Where an identity stands below a node, as indices from that node down.

pub open spec fn page_in_asset(u: Uuid) -> spec_fn(AssetView) -> Option<int> {
    |a: AssetView| first_index(a.pages, page_is(u))
}

pub open spec fn module_in_page(u: Uuid) -> spec_fn(PageView) -> Option<int> {
    |p: PageView| first_index(p.modules, module_is(u))
}

pub open spec fn module_in_asset(u: Uuid) -> spec_fn(AssetView) -> Option<(int, int)> {
    |a: AssetView| first_hit(a.pages, module_in_page(u))
}

pub open spec fn section_in_module(u: Uuid) -> spec_fn(ModuleView) -> Option<int> {
    |m: ModuleView| first_index(m.sections, section_is(u))
}

pub open spec fn section_in_page(u: Uuid) -> spec_fn(PageView) -> Option<(int, int)> {
    |p: PageView| first_hit(p.modules, section_in_module(u))
}

pub open spec fn section_in_asset(u: Uuid) -> spec_fn(AssetView) -> Option<(int, (int, int))> {
    |a: AssetView| first_hit(a.pages, section_in_page(u))
}

pub open spec fn pattern_in_section(u: Uuid) -> spec_fn(SectionView) -> Option<int> {
    |s: SectionView| first_index(s.patterns, pattern_is(u))
}

pub open spec fn pattern_in_module(u: Uuid) -> spec_fn(ModuleView) -> Option<(int, int)> {
    |m: ModuleView| first_hit(m.sections, pattern_in_section(u))
}

pub open spec fn pattern_in_page(u: Uuid) -> spec_fn(PageView) -> Option<(int, (int, int))> {
    |p: PageView| first_hit(p.modules, pattern_in_module(u))
}

pub open spec fn pattern_in_asset(u: Uuid) -> spec_fn(AssetView) -> Option<
    (int, (int, (int, int))),
> {
    |a: AssetView| first_hit(a.pages, pattern_in_page(u))
}

// The patterns below a node, in reading order.

pub open spec fn patterns_of_section() -> spec_fn(SectionView) -> Seq<PatternView> {
    |s: SectionView| s.patterns
}

pub open spec fn patterns_of_module() -> spec_fn(ModuleView) -> Seq<PatternView> {
    |m: ModuleView| flat(m.sections, patterns_of_section())
}

pub open spec fn patterns_of_page() -> spec_fn(PageView) -> Seq<PatternView> {
    |p: PageView| flat(p.modules, patterns_of_module())
}

pub open spec fn patterns_of_asset() -> spec_fn(AssetView) -> Seq<PatternView> {
    |a: AssetView| flat(a.pages, patterns_of_page())
}

// How many pages and modules share a content.

pub open spec fn module_refs(c: Uuid) -> spec_fn(ModuleView) -> nat {
    |m: ModuleView|
        if m.content_uuid == c {
            1nat
        } else {
            0nat
        }
}

pub open spec fn page_refs(c: Uuid) -> spec_fn(PageView) -> nat {
    |p: PageView|
        (if p.content_uuid == c {
            1nat
        } else {
            0nat
        }) + total(p.modules, module_refs(c))
}

pub open spec fn asset_refs(c: Uuid) -> spec_fn(AssetView) -> nat {
    |a: AssetView| total(a.pages, page_refs(c))
}

/// A count, held at the largest that can be told.
pub open spec fn capped(n: nat) -> nat {
    if n <= usize::MAX {
        n
    } else {
        usize::MAX as nat
    }
}

impl ProjectView {
    pub open spec fn find_asset(self, u: Uuid) -> Option<int> {
        first_index(self.assets, asset_is(u))
    }

    pub open spec fn find_page(self, u: Uuid) -> Option<(int, int)> {
        first_hit(self.assets, page_in_asset(u))
    }

    pub open spec fn find_module(self, u: Uuid) -> Option<(int, (int, int))> {
        first_hit(self.assets, module_in_asset(u))
    }

    pub open spec fn find_section(self, u: Uuid) -> Option<(int, (int, (int, int)))> {
        first_hit(self.assets, section_in_asset(u))
    }

    pub open spec fn find_pattern(self, u: Uuid) -> Option<(int, (int, (int, (int, int))))> {
        first_hit(self.assets, pattern_in_asset(u))
    }

    pub open spec fn asset_at(self, a: int) -> Option<AssetView> {
        if 0 <= a < self.assets.len() {
            Some(self.assets[a])
        } else {
            None
        }
    }

    pub open spec fn page_at(self, a: int, p: int) -> Option<PageView> {
        match self.asset_at(a) {
            Some(x) => if 0 <= p < x.pages.len() {
                Some(x.pages[p])
            } else {
                None
            },
            None => None,
        }
    }

    pub open spec fn module_at(self, a: int, p: int, m: int) -> Option<ModuleView> {
        match self.page_at(a, p) {
            Some(x) => if 0 <= m < x.modules.len() {
                Some(x.modules[m])
            } else {
                None
            },
            None => None,
        }
    }

    pub open spec fn section_at(self, a: int, p: int, m: int, s: int) -> Option<SectionView> {
        match self.module_at(a, p, m) {
            Some(x) => if 0 <= s < x.sections.len() {
                Some(x.sections[s])
            } else {
                None
            },
            None => None,
        }
    }

    pub open spec fn pattern_at(self, a: int, p: int, m: int, s: int, t: int) -> Option<
        PatternView,
    > {
        match self.section_at(a, p, m, s) {
            Some(x) => if 0 <= t < x.patterns.len() {
                Some(x.patterns[t])
            } else {
                None
            },
            None => None,
        }
    }

    /// The tree with the asset at `a` replaced by `x`.
    pub open spec fn with_asset(self, a: int, x: AssetView) -> ProjectView {
        ProjectView { assets: self.assets.update(a, x) }
    }

    /// The tree with the page at `a`, `p` replaced by `x`.
    pub open spec fn with_page(self, a: int, p: int, x: PageView) -> ProjectView {
        let y = self.assets[a];
        self.with_asset(a, AssetView { pages: y.pages.update(p, x), ..y })
    }

    /// The tree with the module at `a`, `p`, `m` replaced by `x`.
    pub open spec fn with_module(self, a: int, p: int, m: int, x: ModuleView) -> ProjectView {
        let y = self.assets[a].pages[p];
        self.with_page(a, p, PageView { modules: y.modules.update(m, x), ..y })
    }

    /// The tree with the section at `a`, `p`, `m`, `s` replaced by `x`.
    pub open spec fn with_section(
        self,
        a: int,
        p: int,
        m: int,
        s: int,
        x: SectionView,
    ) -> ProjectView {
        let y = self.assets[a].pages[p].modules[m];
        self.with_module(a, p, m, ModuleView { sections: y.sections.update(s, x), ..y })
    }

    /// The tree with the pattern at `a`, `p`, `m`, `s`, `t` replaced by `x`.
    pub open spec fn with_pattern(
        self,
        a: int,
        p: int,
        m: int,
        s: int,
        t: int,
        x: PatternView,
    ) -> ProjectView {
        let y = self.assets[a].pages[p].modules[m].sections[s];
        self.with_section(a, p, m, s, SectionView { patterns: y.patterns.update(t, x), ..y })
    }

    /// All patterns in reading order.
    pub open spec fn all_patterns(self) -> Seq<PatternView> {
        flat(self.assets, patterns_of_asset())
    }

    /// How many pages and modules have the content `c`.
    pub open spec fn content_refs(self, c: Uuid) -> nat {
        total(self.assets, asset_refs(c))
    }

    /// The asset `u` is there and is not the only one.
    pub open spec fn asset_deletable(self, u: Uuid) -> bool {
        self.find_asset(u) is Some && self.assets.len() > 1
    }

    /// The page `u` is there and its asset has others.
    pub open spec fn page_deletable(self, u: Uuid) -> bool {
        self.find_page(u) matches Some((a, _)) && self.assets[a].pages.len() > 1
    }

    /// The module `u` is there and its page has others.
    pub open spec fn module_deletable(self, u: Uuid) -> bool {
        self.find_module(u) matches Some((a, (p, _))) && self.assets[a].pages[p].modules.len() > 1
    }

    /// The section `u` is there and its module has others.
    pub open spec fn section_deletable(self, u: Uuid) -> bool {
        self.find_section(u) matches Some((a, (p, (m, _))))
            && self.assets[a].pages[p].modules[m].sections.len() > 1
    }
}

/// A found asset is at its path and bears the identity.
pub proof fn lemma_found_asset(v: ProjectView, u: Uuid)
    ensures
        v.find_asset(u) matches Some(a) ==> v.asset_at(a) matches Some(x) && x.uuid == u,
{
    lemma_first_index_found(v.assets, asset_is(u));
}

/// A found page is at its path and bears the identity.
pub proof fn lemma_found_page(v: ProjectView, u: Uuid)
    ensures
        v.find_page(u) matches Some((a, p)) ==> v.page_at(a, p) matches Some(x) && x.uuid == u,
{
    lemma_first_hit_found(v.assets, page_in_asset(u));
    if let Some((a, p)) = v.find_page(u) {
        lemma_first_index_found(v.assets[a].pages, page_is(u));
    }
}

/// A found module is at its path and bears the identity.
pub proof fn lemma_found_module(v: ProjectView, u: Uuid)
    ensures
        v.find_module(u) matches Some((a, (p, m))) ==> v.module_at(a, p, m) matches Some(x)
            && x.uuid == u,
{
    lemma_first_hit_found(v.assets, module_in_asset(u));
    if let Some((a, (p, m))) = v.find_module(u) {
        lemma_first_hit_found(v.assets[a].pages, module_in_page(u));
        lemma_first_index_found(v.assets[a].pages[p].modules, module_is(u));
    }
}

/// A found section is at its path and bears the identity.
pub proof fn lemma_found_section(v: ProjectView, u: Uuid)
    ensures
        v.find_section(u) matches Some((a, (p, (m, s)))) ==> v.section_at(a, p, m, s) matches Some(
            x,
        ) && x.uuid == u,
{
    lemma_first_hit_found(v.assets, section_in_asset(u));
    if let Some((a, (p, (m, s)))) = v.find_section(u) {
        lemma_first_hit_found(v.assets[a].pages, section_in_page(u));
        lemma_first_hit_found(v.assets[a].pages[p].modules, section_in_module(u));
        lemma_first_index_found(v.assets[a].pages[p].modules[m].sections, section_is(u));
    }
}

/// A found pattern is at its path and bears the identity.
pub proof fn lemma_found_pattern(v: ProjectView, u: Uuid)
    ensures
        v.find_pattern(u) matches Some((a, (p, (m, (s, t))))) ==> v.pattern_at(
            a,
            p,
            m,
            s,
            t,
        ) matches Some(x) && x.uuid == u,
{
    lemma_first_hit_found(v.assets, pattern_in_asset(u));
    if let Some((a, (p, (m, (s, t))))) = v.find_pattern(u) {
        lemma_first_hit_found(v.assets[a].pages, pattern_in_page(u));
        lemma_first_hit_found(v.assets[a].pages[p].modules, pattern_in_module(u));
        lemma_first_hit_found(v.assets[a].pages[p].modules[m].sections, pattern_in_section(u));
        lemma_first_index_found(
            v.assets[a].pages[p].modules[m].sections[s].patterns,
            pattern_is(u),
        );
    }
}

/// Putting back what stands at a path changes nothing.
pub proof fn lemma_put_back(v: ProjectView, a: int, p: int, m: int, s: int)
    ensures
        v.page_at(a, p) matches Some(x) ==> v.with_page(a, p, x) == v,
        v.module_at(a, p, m) matches Some(x) ==> v.with_module(a, p, m, x) == v,
        v.section_at(a, p, m, s) matches Some(x) ==> v.with_section(a, p, m, s, x) == v,
{
    let x = v.assets[a];
    let y = x.pages[p];
    let z = y.modules[m];
    if v.page_at(a, p) is Some {
        assert(x.pages.update(p, y) =~= x.pages);
        assert(v.assets.update(a, x) =~= v.assets);
    }
    if v.module_at(a, p, m) is Some {
        assert(y.modules.update(m, z) =~= y.modules);
    }
    if v.section_at(a, p, m, s) is Some {
        assert(z.sections.update(s, z.sections[s]) =~= z.sections);
    }
}

impl Asset {
    fn page_mut(&mut self, i: usize) -> (r: Option<&mut Page>)
        ensures
            match r {
                Some(x) => {
                    &&& i < old(self)@.pages.len()
                    &&& old(self)@.pages[i as int] == x@
                    &&& final(self)@ == (AssetView {
                        pages: old(self)@.pages.update(i as int, final(x)@),
                        ..old(self)@
                    })
                },
                None => i >= old(self)@.pages.len() && final(self)@ == old(self)@,
            },
    {
        if i < self.pages.len() {
            Some(&mut self.pages[i])
        } else {
            None
        }
    }

    fn find_page(&self, uuid: Uuid) -> (r: Option<usize>)
        ensures
            match r {
                Some(i) => page_in_asset(uuid)(self@) == Some(i as int),
                None => page_in_asset(uuid)(self@) is None,
            },
    {
        let ghost f = page_is(uuid);
        let mut i: usize = 0;
        while i < self.pages.len()
            invariant
                0 <= i <= self.pages@.len(),
                f == page_is(uuid),
                forall|j: int| 0 <= j < i ==> !f(#[trigger] self@.pages[j]),
            decreases self.pages@.len() - i,
        {
            assert(self@.pages[i as int] == self.pages@[i as int]@);
            if self.pages[i].uuid == uuid {
                proof {
                    lemma_first_index(self@.pages, f, i as int);
                }
                return Some(i);
            }
            i += 1;
        }
        None
    }

    fn find_module(&self, uuid: Uuid) -> (r: Option<(usize, usize)>)
        ensures
            match r {
                Some((i, j)) => module_in_asset(uuid)(self@) == Some((i as int, j as int)),
                None => module_in_asset(uuid)(self@) is None,
            },
    {
        let ghost f = module_in_page(uuid);
        let mut i: usize = 0;
        while i < self.pages.len()
            invariant
                0 <= i <= self.pages@.len(),
                f == module_in_page(uuid),
                forall|j: int| 0 <= j < i ==> f(#[trigger] self@.pages[j]) is None,
            decreases self.pages@.len() - i,
        {
            assert(self@.pages[i as int] == self.pages@[i as int]@);
            if let Some(m) = self.pages[i].find_module(uuid) {
                proof {
                    lemma_first_hit(self@.pages, f, i as int);
                }
                return Some((i, m));
            }
            i += 1;
        }
        proof {
            lemma_no_hit(self@.pages, f);
        }
        None
    }

    fn find_section(&self, uuid: Uuid) -> (r: Option<(usize, usize, usize)>)
        ensures
            match r {
                Some((i, j, k)) => section_in_asset(uuid)(self@) == Some(
                    (i as int, (j as int, k as int)),
                ),
                None => section_in_asset(uuid)(self@) is None,
            },
    {
        let ghost f = section_in_page(uuid);
        let mut i: usize = 0;
        while i < self.pages.len()
            invariant
                0 <= i <= self.pages@.len(),
                f == section_in_page(uuid),
                forall|j: int| 0 <= j < i ==> f(#[trigger] self@.pages[j]) is None,
            decreases self.pages@.len() - i,
        {
            assert(self@.pages[i as int] == self.pages@[i as int]@);
            if let Some((m, s)) = self.pages[i].find_section(uuid) {
                proof {
                    lemma_first_hit(self@.pages, f, i as int);
                }
                return Some((i, m, s));
            }
            i += 1;
        }
        proof {
            lemma_no_hit(self@.pages, f);
        }
        None
    }

    fn find_pattern(&self, uuid: Uuid) -> (r: Option<(usize, usize, usize, usize)>)
        ensures
            match r {
                Some((i, j, k, l)) => pattern_in_asset(uuid)(self@) == Some(
                    (i as int, (j as int, (k as int, l as int))),
                ),
                None => pattern_in_asset(uuid)(self@) is None,
            },
    {
        let ghost f = pattern_in_page(uuid);
        let mut i: usize = 0;
        while i < self.pages.len()
            invariant
                0 <= i <= self.pages@.len(),
                f == pattern_in_page(uuid),
                forall|j: int| 0 <= j < i ==> f(#[trigger] self@.pages[j]) is None,
            decreases self.pages@.len() - i,
        {
            assert(self@.pages[i as int] == self.pages@[i as int]@);
            if let Some((m, s, t)) = self.pages[i].find_pattern(uuid) {
                proof {
                    lemma_first_hit(self@.pages, f, i as int);
                }
                return Some((i, m, s, t));
            }
            i += 1;
        }
        proof {
            lemma_no_hit(self@.pages, f);
        }
        None
    }

    fn collect_into<'a>(&'a self, out: &mut Vec<&'a Pattern>)
        ensures
            views(final(out)@) == views(old(out)@) + patterns_of_asset()(self@),
    {
        let ghost f = patterns_of_page();
        let ghost before = views(out@);
        let mut i: usize = 0;
        while i < self.pages.len()
            invariant
                0 <= i <= self.pages@.len(),
                f == patterns_of_page(),
                views(out@) =~= before + flat(self@.pages.take(i as int), f),
            decreases self.pages@.len() - i,
        {
            proof {
                lemma_flat_take(self@.pages, f, i as int);
                assert(self@.pages[i as int] == self.pages@[i as int]@);
            }
            self.pages[i].collect_into(out);
            i += 1;
        }
        assert(self@.pages.take(i as int) =~= self@.pages);
    }
}

/// The contents of borrowed patterns.
pub open spec fn views(s: Seq<&Pattern>) -> Seq<PatternView> {
    Seq::new(s.len(), |i: int| s[i]@)
}

impl Page {
    fn module_mut(&mut self, i: usize) -> (r: Option<&mut Module>)
        ensures
            match r {
                Some(x) => {
                    &&& i < old(self)@.modules.len()
                    &&& old(self)@.modules[i as int] == x@
                    &&& final(self)@ == (PageView {
                        modules: old(self)@.modules.update(i as int, final(x)@),
                        ..old(self)@
                    })
                },
                None => i >= old(self)@.modules.len() && final(self)@ == old(self)@,
            },
    {
        if i < self.modules.len() {
            Some(&mut self.modules[i])
        } else {
            None
        }
    }

    fn find_module(&self, uuid: Uuid) -> (r: Option<usize>)
        ensures
            match r {
                Some(i) => module_in_page(uuid)(self@) == Some(i as int),
                None => module_in_page(uuid)(self@) is None,
            },
    {
        let ghost f = module_is(uuid);
        let mut i: usize = 0;
        while i < self.modules.len()
            invariant
                0 <= i <= self.modules@.len(),
                f == module_is(uuid),
                forall|j: int| 0 <= j < i ==> !f(#[trigger] self@.modules[j]),
            decreases self.modules@.len() - i,
        {
            assert(self@.modules[i as int] == self.modules@[i as int]@);
            if self.modules[i].uuid == uuid {
                proof {
                    lemma_first_index(self@.modules, f, i as int);
                }
                return Some(i);
            }
            i += 1;
        }
        None
    }

    fn find_section(&self, uuid: Uuid) -> (r: Option<(usize, usize)>)
        ensures
            match r {
                Some((i, j)) => section_in_page(uuid)(self@) == Some((i as int, j as int)),
                None => section_in_page(uuid)(self@) is None,
            },
    {
        let ghost f = section_in_module(uuid);
        let mut i: usize = 0;
        while i < self.modules.len()
            invariant
                0 <= i <= self.modules@.len(),
                f == section_in_module(uuid),
                forall|j: int| 0 <= j < i ==> f(#[trigger] self@.modules[j]) is None,
            decreases self.modules@.len() - i,
        {
            assert(self@.modules[i as int] == self.modules@[i as int]@);
            if let Some(s) = self.modules[i].find_section(uuid) {
                proof {
                    lemma_first_hit(self@.modules, f, i as int);
                }
                return Some((i, s));
            }
            i += 1;
        }
        proof {
            lemma_no_hit(self@.modules, f);
        }
        None
    }

    fn find_pattern(&self, uuid: Uuid) -> (r: Option<(usize, usize, usize)>)
        ensures
            match r {
                Some((i, j, k)) => pattern_in_page(uuid)(self@) == Some(
                    (i as int, (j as int, k as int)),
                ),
                None => pattern_in_page(uuid)(self@) is None,
            },
    {
        let ghost f = pattern_in_module(uuid);
        let mut i: usize = 0;
        while i < self.modules.len()
            invariant
                0 <= i <= self.modules@.len(),
                f == pattern_in_module(uuid),
                forall|j: int| 0 <= j < i ==> f(#[trigger] self@.modules[j]) is None,
            decreases self.modules@.len() - i,
        {
            assert(self@.modules[i as int] == self.modules@[i as int]@);
            if let Some((s, t)) = self.modules[i].find_pattern(uuid) {
                proof {
                    lemma_first_hit(self@.modules, f, i as int);
                }
                return Some((i, s, t));
            }
            i += 1;
        }
        proof {
            lemma_no_hit(self@.modules, f);
        }
        None
    }

    fn collect_into<'a>(&'a self, out: &mut Vec<&'a Pattern>)
        ensures
            views(final(out)@) == views(old(out)@) + patterns_of_page()(self@),
    {
        let ghost f = patterns_of_module();
        let ghost before = views(out@);
        let mut i: usize = 0;
        while i < self.modules.len()
            invariant
                0 <= i <= self.modules@.len(),
                f == patterns_of_module(),
                views(out@) =~= before + flat(self@.modules.take(i as int), f),
            decreases self.modules@.len() - i,
        {
            proof {
                lemma_flat_take(self@.modules, f, i as int);
                assert(self@.modules[i as int] == self.modules@[i as int]@);
            }
            self.modules[i].collect_into(out);
            i += 1;
        }
        assert(self@.modules.take(i as int) =~= self@.modules);
    }

    fn content_refs(&self, c: Uuid) -> (r: usize)
        ensures
            r == capped(page_refs(c)(self@)),
    {
        let ghost f = module_refs(c);
        let mut n: usize = if self.content_uuid == c {
            1
        } else {
            0
        };
        let ghost own = n as nat;
        let mut i: usize = 0;
        while i < self.modules.len()
            invariant
                0 <= i <= self.modules@.len(),
                f == module_refs(c),
                n == capped(own + total(self@.modules.take(i as int), f)),
            decreases self.modules@.len() - i,
        {
            proof {
                lemma_total_take(self@.modules, f, i as int);
                assert(self@.modules[i as int] == self.modules@[i as int]@);
            }
            if self.modules[i].content_uuid == c {
                n = n.saturating_add(1);
            }
            i += 1;
        }
        assert(self@.modules.take(i as int) =~= self@.modules);
        n
    }
}

impl Module {
    fn section_mut(&mut self, i: usize) -> (r: Option<&mut Section>)
        ensures
            match r {
                Some(x) => {
                    &&& i < old(self)@.sections.len()
                    &&& old(self)@.sections[i as int] == x@
                    &&& final(self)@ == (ModuleView {
                        sections: old(self)@.sections.update(i as int, final(x)@),
                        ..old(self)@
                    })
                },
                None => i >= old(self)@.sections.len() && final(self)@ == old(self)@,
            },
    {
        if i < self.sections.len() {
            Some(&mut self.sections[i])
        } else {
            None
        }
    }

    fn find_section(&self, uuid: Uuid) -> (r: Option<usize>)
        ensures
            match r {
                Some(i) => section_in_module(uuid)(self@) == Some(i as int),
                None => section_in_module(uuid)(self@) is None,
            },
    {
        let ghost f = section_is(uuid);
        let mut i: usize = 0;
        while i < self.sections.len()
            invariant
                0 <= i <= self.sections@.len(),
                f == section_is(uuid),
                forall|j: int| 0 <= j < i ==> !f(#[trigger] self@.sections[j]),
            decreases self.sections@.len() - i,
        {
            assert(self@.sections[i as int] == self.sections@[i as int]@);
            if self.sections[i].uuid == uuid {
                proof {
                    lemma_first_index(self@.sections, f, i as int);
                }
                return Some(i);
            }
            i += 1;
        }
        None
    }

    fn find_pattern(&self, uuid: Uuid) -> (r: Option<(usize, usize)>)
        ensures
            match r {
                Some((i, j)) => pattern_in_module(uuid)(self@) == Some((i as int, j as int)),
                None => pattern_in_module(uuid)(self@) is None,
            },
    {
        let ghost f = pattern_in_section(uuid);
        let mut i: usize = 0;
        while i < self.sections.len()
            invariant
                0 <= i <= self.sections@.len(),
                f == pattern_in_section(uuid),
                forall|j: int| 0 <= j < i ==> f(#[trigger] self@.sections[j]) is None,
            decreases self.sections@.len() - i,
        {
            assert(self@.sections[i as int] == self.sections@[i as int]@);
            if let Some(t) = self.sections[i].find_pattern(uuid) {
                proof {
                    lemma_first_hit(self@.sections, f, i as int);
                }
                return Some((i, t));
            }
            i += 1;
        }
        proof {
            lemma_no_hit(self@.sections, f);
        }
        None
    }

    fn collect_into<'a>(&'a self, out: &mut Vec<&'a Pattern>)
        ensures
            views(final(out)@) == views(old(out)@) + patterns_of_module()(self@),
    {
        let ghost f = patterns_of_section();
        let ghost before = views(out@);
        let mut i: usize = 0;
        while i < self.sections.len()
            invariant
                0 <= i <= self.sections@.len(),
                f == patterns_of_section(),
                views(out@) =~= before + flat(self@.sections.take(i as int), f),
            decreases self.sections@.len() - i,
        {
            proof {
                lemma_flat_take(self@.sections, f, i as int);
                assert(self@.sections[i as int] == self.sections@[i as int]@);
            }
            self.sections[i].collect_into(out);
            i += 1;
        }
        assert(self@.sections.take(i as int) =~= self@.sections);
    }
}

impl Section {
    fn pattern_mut(&mut self, i: usize) -> (r: Option<&mut Pattern>)
        ensures
            match r {
                Some(x) => {
                    &&& i < old(self)@.patterns.len()
                    &&& old(self)@.patterns[i as int] == x@
                    &&& final(self)@ == (SectionView {
                        patterns: old(self)@.patterns.update(i as int, final(x)@),
                        ..old(self)@
                    })
                },
                None => i >= old(self)@.patterns.len() && final(self)@ == old(self)@,
            },
    {
        if i < self.patterns.len() {
            Some(&mut self.patterns[i])
        } else {
            None
        }
    }

    fn find_pattern(&self, uuid: Uuid) -> (r: Option<usize>)
        ensures
            match r {
                Some(i) => pattern_in_section(uuid)(self@) == Some(i as int),
                None => pattern_in_section(uuid)(self@) is None,
            },
    {
        let ghost f = pattern_is(uuid);
        let mut i: usize = 0;
        while i < self.patterns.len()
            invariant
                0 <= i <= self.patterns@.len(),
                f == pattern_is(uuid),
                forall|j: int| 0 <= j < i ==> !f(#[trigger] self@.patterns[j]),
            decreases self.patterns@.len() - i,
        {
            assert(self@.patterns[i as int] == self.patterns@[i as int]@);
            if self.patterns[i].uuid == uuid {
                proof {
                    lemma_first_index(self@.patterns, f, i as int);
                }
                return Some(i);
            }
            i += 1;
        }
        None
    }

    fn collect_into<'a>(&'a self, out: &mut Vec<&'a Pattern>)
        ensures
            views(final(out)@) == views(old(out)@) + patterns_of_section()(self@),
    {
        let ghost before = views(out@);
        let mut i: usize = 0;
        while i < self.patterns.len()
            invariant
                0 <= i <= self.patterns@.len(),
                views(out@) =~= before + self@.patterns.take(i as int),
            decreases self.patterns@.len() - i,
        {
            let ghost prev = out@;
            out.push(&self.patterns[i]);
            assert(self@.patterns[i as int] == self.patterns@[i as int]@);
            assert(views(out@) =~= views(prev).push(self@.patterns[i as int]));
            assert(self@.patterns.take(i + 1) =~= self@.patterns.take(i as int).push(
                self@.patterns[i as int],
            ));
            i += 1;
        }
        assert(self@.patterns.take(i as int) =~= self@.patterns);
    }
}

impl Project {
    // Identity to path.

    pub fn find_asset(&self, uuid: Uuid) -> (r: Option<AssetPath>)
        ensures
            match r {
                Some(p) => self@.find_asset(uuid) == Some(p@),
                None => self@.find_asset(uuid) is None,
            },
    {
        let ghost f = asset_is(uuid);
        let mut i: usize = 0;
        while i < self.assets.len()
            invariant
                0 <= i <= self.assets@.len(),
                f == asset_is(uuid),
                forall|j: int| 0 <= j < i ==> !f(#[trigger] self@.assets[j]),
            decreases self.assets@.len() - i,
        {
            assert(self@.assets[i as int] == self.assets@[i as int]@);
            if self.assets[i].uuid == uuid {
                proof {
                    lemma_first_index(self@.assets, f, i as int);
                }
                return Some(AssetPath { asset: i });
            }
            i += 1;
        }
        None
    }

    pub fn find_page(&self, uuid: Uuid) -> (r: Option<PagePath>)
        ensures
            match r {
                Some(p) => self@.find_page(uuid) == Some(p@),
                None => self@.find_page(uuid) is None,
            },
    {
        let ghost f = page_in_asset(uuid);
        let mut i: usize = 0;
        while i < self.assets.len()
            invariant
                0 <= i <= self.assets@.len(),
                f == page_in_asset(uuid),
                forall|j: int| 0 <= j < i ==> f(#[trigger] self@.assets[j]) is None,
            decreases self.assets@.len() - i,
        {
            assert(self@.assets[i as int] == self.assets@[i as int]@);
            if let Some(page) = self.assets[i].find_page(uuid) {
                proof {
                    lemma_first_hit(self@.assets, f, i as int);
                }
                return Some(PagePath { asset: i, page });
            }
            i += 1;
        }
        proof {
            lemma_no_hit(self@.assets, f);
        }
        None
    }

    pub fn find_module(&self, uuid: Uuid) -> (r: Option<ModulePath>)
        ensures
            match r {
                Some(p) => self@.find_module(uuid) == Some(p@),
                None => self@.find_module(uuid) is None,
            },
    {
        let ghost f = module_in_asset(uuid);
        let mut i: usize = 0;
        while i < self.assets.len()
            invariant
                0 <= i <= self.assets@.len(),
                f == module_in_asset(uuid),
                forall|j: int| 0 <= j < i ==> f(#[trigger] self@.assets[j]) is None,
            decreases self.assets@.len() - i,
        {
            assert(self@.assets[i as int] == self.assets@[i as int]@);
            if let Some((page, module)) = self.assets[i].find_module(uuid) {
                proof {
                    lemma_first_hit(self@.assets, f, i as int);
                }
                return Some(ModulePath { asset: i, page, module });
            }
            i += 1;
        }
        proof {
            lemma_no_hit(self@.assets, f);
        }
        None
    }

    pub fn find_section(&self, uuid: Uuid) -> (r: Option<SectionPath>)
        ensures
            match r {
                Some(p) => self@.find_section(uuid) == Some(p@),
                None => self@.find_section(uuid) is None,
            },
    {
        let ghost f = section_in_asset(uuid);
        let mut i: usize = 0;
        while i < self.assets.len()
            invariant
                0 <= i <= self.assets@.len(),
                f == section_in_asset(uuid),
                forall|j: int| 0 <= j < i ==> f(#[trigger] self@.assets[j]) is None,
            decreases self.assets@.len() - i,
        {
            assert(self@.assets[i as int] == self.assets@[i as int]@);
            if let Some((page, module, section)) = self.assets[i].find_section(uuid) {
                proof {
                    lemma_first_hit(self@.assets, f, i as int);
                }
                return Some(SectionPath { asset: i, page, module, section });
            }
            i += 1;
        }
        proof {
            lemma_no_hit(self@.assets, f);
        }
        None
    }

    pub fn find_pattern_path(&self, uuid: Uuid) -> (r: Option<PatternPath>)
        ensures
            match r {
                Some(p) => self@.find_pattern(uuid) == Some(p@),
                None => self@.find_pattern(uuid) is None,
            },
    {
        let ghost f = pattern_in_asset(uuid);
        let mut i: usize = 0;
        while i < self.assets.len()
            invariant
                0 <= i <= self.assets@.len(),
                f == pattern_in_asset(uuid),
                forall|j: int| 0 <= j < i ==> f(#[trigger] self@.assets[j]) is None,
            decreases self.assets@.len() - i,
        {
            assert(self@.assets[i as int] == self.assets@[i as int]@);
            if let Some((page, module, section, pattern)) = self.assets[i].find_pattern(uuid) {
                proof {
                    lemma_first_hit(self@.assets, f, i as int);
                }
                return Some(PatternPath { asset: i, page, module, section, pattern });
            }
            i += 1;
        }
        proof {
            lemma_no_hit(self@.assets, f);
        }
        None
    }

    // Path to node: none where an index is out of bounds.

    pub fn asset(&self, p: AssetPath) -> (r: Option<&Asset>)
        ensures
            match r {
                Some(x) => self@.asset_at(p@) == Some(x@),
                None => self@.asset_at(p@) is None,
            },
    {
        if p.asset < self.assets.len() {
            Some(&self.assets[p.asset])
        } else {
            None
        }
    }

    pub fn asset_mut(&mut self, p: AssetPath) -> (r: Option<&mut Asset>)
        ensures
            match r {
                Some(x) => {
                    &&& old(self)@.asset_at(p@) == Some(x@)
                    &&& final(self)@ == old(self)@.with_asset(p@, final(x)@)
                },
                None => old(self)@.asset_at(p@) is None && final(self)@ == old(self)@,
            },
    {
        if p.asset < self.assets.len() {
            Some(&mut self.assets[p.asset])
        } else {
            None
        }
    }

    pub fn page(&self, p: PagePath) -> (r: Option<&Page>)
        ensures
            match r {
                Some(x) => self@.page_at(p@.0, p@.1) == Some(x@),
                None => self@.page_at(p@.0, p@.1) is None,
            },
    {
        let asset = self.asset(AssetPath { asset: p.asset })?;
        if p.page < asset.pages.len() {
            Some(&asset.pages[p.page])
        } else {
            None
        }
    }

    pub fn page_mut(&mut self, p: PagePath) -> (r: Option<&mut Page>)
        ensures
            match r {
                Some(x) => {
                    &&& old(self)@.page_at(p@.0, p@.1) == Some(x@)
                    &&& final(self)@ == old(self)@.with_page(p@.0, p@.1, final(x)@)
                },
                None => old(self)@.page_at(p@.0, p@.1) is None && final(self)@ == old(self)@,
            },
    {
        match self.asset_mut(AssetPath { asset: p.asset }) {
            Some(asset) => asset.page_mut(p.page),
            None => None,
        }
    }

    pub fn module(&self, p: ModulePath) -> (r: Option<&Module>)
        ensures
            match r {
                Some(x) => self@.module_at(p@.0, p@.1.0, p@.1.1) == Some(x@),
                None => self@.module_at(p@.0, p@.1.0, p@.1.1) is None,
            },
    {
        let page = self.page(PagePath { asset: p.asset, page: p.page })?;
        if p.module < page.modules.len() {
            Some(&page.modules[p.module])
        } else {
            None
        }
    }

    pub fn module_mut(&mut self, p: ModulePath) -> (r: Option<&mut Module>)
        ensures
            match r {
                Some(x) => {
                    &&& old(self)@.module_at(p@.0, p@.1.0, p@.1.1) == Some(x@)
                    &&& final(self)@ == old(self)@.with_module(p@.0, p@.1.0, p@.1.1, final(x)@)
                },
                None => {
                    &&& old(self)@.module_at(p@.0, p@.1.0, p@.1.1) is None
                    &&& final(self)@ == old(self)@
                },
            },
    {
        proof {
            lemma_put_back(self@, p@.0, p@.1.0, 0, 0);
        }
        match self.page_mut(PagePath { asset: p.asset, page: p.page }) {
            Some(page) => page.module_mut(p.module),
            None => None,
        }
    }

    pub fn section(&self, p: SectionPath) -> (r: Option<&Section>)
        ensures
            match r {
                Some(x) => self@.section_at(p@.0, p@.1.0, p@.1.1.0, p@.1.1.1) == Some(x@),
                None => self@.section_at(p@.0, p@.1.0, p@.1.1.0, p@.1.1.1) is None,
            },
    {
        let module = self.module(ModulePath { asset: p.asset, page: p.page, module: p.module })?;
        if p.section < module.sections.len() {
            Some(&module.sections[p.section])
        } else {
            None
        }
    }

    pub fn section_mut(&mut self, p: SectionPath) -> (r: Option<&mut Section>)
        ensures
            match r {
                Some(x) => {
                    &&& old(self)@.section_at(p@.0, p@.1.0, p@.1.1.0, p@.1.1.1) == Some(x@)
                    &&& final(self)@ == old(self)@.with_section(
                        p@.0,
                        p@.1.0,
                        p@.1.1.0,
                        p@.1.1.1,
                        final(x)@,
                    )
                },
                None => {
                    &&& old(self)@.section_at(p@.0, p@.1.0, p@.1.1.0, p@.1.1.1) is None
                    &&& final(self)@ == old(self)@
                },
            },
    {
        proof {
            lemma_put_back(self@, p@.0, p@.1.0, p@.1.1.0, 0);
        }
        match self.module_mut(ModulePath { asset: p.asset, page: p.page, module: p.module }) {
            Some(module) => module.section_mut(p.section),
            None => None,
        }
    }

    pub fn pattern(&self, p: PatternPath) -> (r: Option<&Pattern>)
        ensures
            match r {
                Some(x) => self@.pattern_at(
                    p@.0,
                    p@.1.0,
                    p@.1.1.0,
                    p@.1.1.1.0,
                    p@.1.1.1.1,
                ) == Some(x@),
                None => self@.pattern_at(p@.0, p@.1.0, p@.1.1.0, p@.1.1.1.0, p@.1.1.1.1) is None,
            },
    {
        let section = self.section(
            SectionPath { asset: p.asset, page: p.page, module: p.module, section: p.section },
        )?;
        if p.pattern < section.patterns.len() {
            Some(&section.patterns[p.pattern])
        } else {
            None
        }
    }

    pub fn pattern_mut(&mut self, p: PatternPath) -> (r: Option<&mut Pattern>)
        ensures
            match r {
                Some(x) => {
                    &&& old(self)@.pattern_at(
                        p@.0,
                        p@.1.0,
                        p@.1.1.0,
                        p@.1.1.1.0,
                        p@.1.1.1.1,
                    ) == Some(x@)
                    &&& final(self)@ == old(self)@.with_pattern(
                        p@.0,
                        p@.1.0,
                        p@.1.1.0,
                        p@.1.1.1.0,
                        p@.1.1.1.1,
                        final(x)@,
                    )
                },
                None => {
                    &&& old(self)@.pattern_at(
                        p@.0,
                        p@.1.0,
                        p@.1.1.0,
                        p@.1.1.1.0,
                        p@.1.1.1.1,
                    ) is None
                    &&& final(self)@ == old(self)@
                },
            },
    {
        proof {
            lemma_put_back(self@, p@.0, p@.1.0, p@.1.1.0, p@.1.1.1.0);
        }
        match self.section_mut(
            SectionPath { asset: p.asset, page: p.page, module: p.module, section: p.section },
        ) {
            Some(section) => section.pattern_mut(p.pattern),
            None => None,
        }
    }

    // Identity to node.

    pub fn find_pattern(&self, uuid: Uuid) -> (r: Option<&Pattern>)
        ensures
            match self@.find_pattern(uuid) {
                Some((a, (p, (m, (s, t))))) => {
                    r matches Some(x) && self@.pattern_at(a, p, m, s, t) == Some(x@)
                },
                None => r is None,
            },
    {
        proof {
            lemma_found_pattern(self@, uuid);
        }
        let path = self.find_pattern_path(uuid)?;
        self.pattern(path)
    }

    pub fn find_pattern_mut(&mut self, uuid: Uuid) -> (r: Option<&mut Pattern>)
        ensures
            match old(self)@.find_pattern(uuid) {
                Some((a, (p, (m, (s, t))))) => {
                    &&& r matches Some(x)
                    &&& old(self)@.pattern_at(a, p, m, s, t) == Some(x@)
                    &&& final(self)@ == old(self)@.with_pattern(a, p, m, s, t, final(x)@)
                },
                None => r is None && final(self)@ == old(self)@,
            },
    {
        proof {
            lemma_found_pattern(self@, uuid);
        }
        let path = self.find_pattern_path(uuid)?;
        self.pattern_mut(path)
    }

    pub fn find_section_mut(&mut self, uuid: Uuid) -> (r: Option<&mut Section>)
        ensures
            match old(self)@.find_section(uuid) {
                Some((a, (p, (m, s)))) => {
                    &&& r matches Some(x)
                    &&& old(self)@.section_at(a, p, m, s) == Some(x@)
                    &&& final(self)@ == old(self)@.with_section(a, p, m, s, final(x)@)
                },
                None => r is None && final(self)@ == old(self)@,
            },
    {
        proof {
            lemma_found_section(self@, uuid);
        }
        let path = self.find_section(uuid)?;
        self.section_mut(path)
    }

    // Collections.

    /// Every pattern of the tree, in reading order.
    pub fn collect_all_patterns(&self) -> (r: Vec<&Pattern>)
        ensures
            views(r@) == self@.all_patterns(),
    {
        let ghost f = patterns_of_asset();
        let mut out: Vec<&Pattern> = Vec::new();
        let mut i: usize = 0;
        while i < self.assets.len()
            invariant
                0 <= i <= self.assets@.len(),
                f == patterns_of_asset(),
                views(out@) =~= flat(self@.assets.take(i as int), f),
            decreases self.assets@.len() - i,
        {
            proof {
                lemma_flat_take(self@.assets, f, i as int);
                assert(self@.assets[i as int] == self.assets@[i as int]@);
            }
            self.assets[i].collect_into(&mut out);
            i += 1;
        }
        assert(self@.assets.take(i as int) =~= self@.assets);
        out
    }

    /// Every pattern of one asset, in reading order; none without the asset.
    pub fn collect_patterns_in_asset(&self, asset_uuid: Uuid) -> (r: Vec<&Pattern>)
        ensures
            views(r@) == match self@.find_asset(asset_uuid) {
                Some(a) => patterns_of_asset()(self@.assets[a]),
                None => Seq::empty(),
            },
    {
        let mut out: Vec<&Pattern> = Vec::new();
        proof {
            lemma_found_asset(self@, asset_uuid);
        }
        if let Some(p) = self.find_asset(asset_uuid) {
            assert(views(out@) =~= Seq::empty());
            self.assets[p.asset].collect_into(&mut out);
            assert(views(out@) =~= patterns_of_asset()(self@.assets[p@]));
        }
        out
    }

    /// How many pages and modules share this content: one for a node that
    /// was just made, one more for each duplicate, as far as that can be
    /// counted.
    pub fn content_ref_count(&self, content_uuid: Uuid) -> (r: usize)
        ensures
            r == capped(self@.content_refs(content_uuid)),
    {
        let ghost f = asset_refs(content_uuid);
        let ghost g = page_refs(content_uuid);
        let mut n: usize = 0;
        let mut i: usize = 0;
        while i < self.assets.len()
            invariant
                0 <= i <= self.assets@.len(),
                f == asset_refs(content_uuid),
                g == page_refs(content_uuid),
                n == capped(total(self@.assets.take(i as int), f)),
            decreases self.assets@.len() - i,
        {
            let asset = &self.assets[i];
            proof {
                lemma_total_take(self@.assets, f, i as int);
                assert(self@.assets[i as int] == asset@);
            }
            let ghost before = total(self@.assets.take(i as int), f);
            let mut j: usize = 0;
            while j < asset.pages.len()
                invariant
                    0 <= j <= asset.pages@.len(),
                    g == page_refs(content_uuid),
                    n == capped(before + total(asset@.pages.take(j as int), g)),
                decreases asset.pages@.len() - j,
            {
                proof {
                    lemma_total_take(asset@.pages, g, j as int);
                    assert(asset@.pages[j as int] == asset.pages@[j as int]@);
                }
                let k: usize = asset.pages[j].content_refs(content_uuid);
                n = n.saturating_add(k);
                j += 1;
            }
            assert(asset@.pages.take(j as int) =~= asset@.pages);
            i += 1;
        }
        assert(self@.assets.take(i as int) =~= self@.assets);
        n
    }

    // Guards on deletion: a parent never becomes empty.

    pub fn can_delete_section(&self, uuid: Uuid) -> (r: bool)
        ensures
            r == self@.section_deletable(uuid),
    {
        proof {
            lemma_found_section(self@, uuid);
        }
        match self.find_section(uuid) {
            Some(p) => self.assets[p.asset].pages[p.page].modules[p.module].sections.len() > 1,
            None => false,
        }
    }

    pub fn can_delete_module(&self, uuid: Uuid) -> (r: bool)
        ensures
            r == self@.module_deletable(uuid),
    {
        proof {
            lemma_found_module(self@, uuid);
        }
        match self.find_module(uuid) {
            Some(p) => self.assets[p.asset].pages[p.page].modules.len() > 1,
            None => false,
        }
    }

    pub fn can_delete_page(&self, uuid: Uuid) -> (r: bool)
        ensures
            r == self@.page_deletable(uuid),
    {
        proof {
            lemma_found_page(self@, uuid);
        }
        match self.find_page(uuid) {
            Some(p) => self.assets[p.asset].pages.len() > 1,
            None => false,
        }
    }

    pub fn can_delete_asset(&self, uuid: Uuid) -> (r: bool)
        ensures
            r == self@.asset_deletable(uuid),
    {
        self.find_asset(uuid).is_some() && self.assets.len() > 1
    }
}

} // verus!
