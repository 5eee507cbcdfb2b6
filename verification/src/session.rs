//! What a session keeps: its settings and the project tree.
//!
//! Older files hold one take and one asset header at the top in place of the
//! tree; [`migrate_into_project`] folds them into it.
use vstd::prelude::*;

use crate::ids::random_marks;
use crate::navigator::model::default_project;
use crate::navigator::model::empty_pattern;
use crate::navigator::model::empty_section;
use crate::navigator::model::recorded;
use crate::navigator::model::AssetMeta;
use crate::navigator::model::AssetMetaView;
use crate::navigator::model::AssetView;
use crate::navigator::model::ModuleView;
use crate::navigator::model::Pattern;
use crate::navigator::model::PatternView;
use crate::navigator::model::Project;
use crate::navigator::model::ProjectView;
use crate::navigator::model::Section;
use crate::navigator::model::SectionKind;
use crate::navigator::model::SectionView;
use crate::navigator::queries::ModulePath;
use crate::number::Real32;
use crate::seqs::first_hit;
use crate::seqs::hits_first;
use crate::seqs::lemma_first_hit;
use crate::seqs::lemma_no_hit;
use crate::seqs::lemma_picked_take;
use crate::seqs::picked;
use crate::take::TakeState;
use crate::take::TakeView;

verus! {

/// The name of the file that holds a session.
pub fn session_file() -> (r: &'static str)
    ensures
        r@ == "session.toml"@,
{
    "session.toml"
}

#[derive(Debug)]
pub struct SessionState {
    pub session_name: String,
    pub sample_rate: u32,
    pub time_sig_num: u32,
    pub target_lufs: Real32,
    pub zoom: Real32,
    pub snap_to_grid: bool,
    pub layer_names: Vec<String>,
    /// The project tree; empty in older files.
    pub project: Project,
    /// The take of older files.
    pub take: Option<TakeState>,
    /// The asset header of older files.
    pub asset_meta: Option<AssetMeta>,
}

/// The contents of a [`SessionState`].
#[verifier::ext_equal]
pub struct SessionView {
    pub session_name: Seq<char>,
    pub sample_rate: u32,
    pub time_sig_num: u32,
    pub target_lufs: Real32,
    pub zoom: Real32,
    pub snap_to_grid: bool,
    pub layer_names: Seq<Seq<char>>,
    pub project: ProjectView,
    pub take: Option<TakeView>,
    pub asset_meta: Option<AssetMetaView>,
}

impl View for SessionState {
    type V = SessionView;

    open spec fn view(&self) -> SessionView {
        SessionView {
            session_name: self.session_name@,
            sample_rate: self.sample_rate,
            time_sig_num: self.time_sig_num,
            target_lufs: self.target_lufs,
            zoom: self.zoom,
            snap_to_grid: self.snap_to_grid,
            layer_names: self.layer_names@.map_values(|s: String| s@),
            project: self.project@,
            take: match self.take {
                Some(t) => Some(t@),
                None => None,
            },
            asset_meta: match self.asset_meta {
                Some(m) => Some(m@),
                None => None,
            },
        }
    }
}

/// A pattern "Pattern 1" that holds the take and nothing else.
pub open spec fn take_pattern(p: PatternView, take: TakeView) -> bool {
    &&& p == (PatternView {
        clip_source: Some(recorded(take)),
        ..empty_pattern(p.uuid, "Pattern 1"@)
    })
    &&& random_marks(p.uuid.value)
}

/// The patterns hold the takes, one each, in order.
pub open spec fn take_patterns(s: Seq<PatternView>, takes: Seq<TakeView>) -> bool {
    &&& s.len() == takes.len()
    &&& forall|i: int| 0 <= i < takes.len() ==> take_pattern(#[trigger] s[i], takes[i])
}

/// The section is unnamed, of the kind, and its patterns hold the takes.
pub open spec fn take_section(s: SectionView, kind: SectionKind, takes: Seq<TakeView>) -> bool {
    &&& s == (SectionView { patterns: s.patterns, ..empty_section(s.uuid, kind) })
    &&& random_marks(s.uuid.value)
    &&& take_patterns(s.patterns, takes)
}

/// A fresh project but for the sections of its module.
pub open spec fn fresh_but_sections(v: ProjectView, sections: Seq<SectionView>) -> bool {
    exists|base: ProjectView|
        {
            &&& #[trigger] default_project(base)
            &&& v == base.with_module(
                0,
                0,
                0,
                ModuleView { sections, ..base.assets[0].pages[0].modules[0] },
            )
        }
}

/// A fresh project whose Main section holds the takes.
pub open spec fn main_project(v: ProjectView, takes: Seq<TakeView>) -> bool {
    exists|s: SectionView|
        #[trigger] take_section(s, SectionKind::Main, takes) && fresh_but_sections(v, seq![s])
}

/// The takes of one kind, in order.
pub open spec fn takes_of(takes: Seq<(SectionKind, TakeView)>, kind: SectionKind) -> Seq<TakeView> {
    picked(takes, take_if(kind))
}

pub open spec fn take_if(kind: SectionKind) -> spec_fn((SectionKind, TakeView)) -> Option<
    TakeView,
> {
    |t: (SectionKind, TakeView)|
        if t.0 == kind {
            Some(t.1)
        } else {
            None
        }
}

/// The sections of a module that hold the takes: Intro and Outro where they
/// have any, and Main, in canonical order.
pub open spec fn take_sections(
    s: Seq<SectionView>,
    takes: Seq<(SectionKind, TakeView)>,
) -> bool {
    let i = takes_of(takes, SectionKind::Intro);
    let m = takes_of(takes, SectionKind::Main);
    let o = takes_of(takes, SectionKind::Outro);
    let n = if i.len() > 0 {
        1int
    } else {
        0int
    };
    &&& s.len() == n + 1 + (if o.len() > 0 {
        1int
    } else {
        0int
    })
    &&& i.len() > 0 ==> take_section(s[0], SectionKind::Intro, i)
    &&& take_section(s[n], SectionKind::Main, m)
    &&& o.len() > 0 ==> take_section(s[n + 1], SectionKind::Outro, o)
}

/// The contents of takes with their kinds.
pub open spec fn take_views(s: Seq<(SectionKind, TakeState)>) -> Seq<(SectionKind, TakeView)> {
    s.map_values(|t: (SectionKind, TakeState)| (t.0, t.1@))
}

/// The take of a pattern, where it has one.
pub open spec fn pattern_take() -> spec_fn(PatternView) -> Option<TakeView> {
    |p: PatternView|
        match p.clip_source {
            Some(c) => c.take,
            None => None,
        }
}

/// The take of the first pattern that has one, with the section's kind.
pub open spec fn section_take() -> spec_fn(SectionView) -> Option<(SectionKind, TakeView)> {
    |s: SectionView|
        match first_hit(s.patterns, pattern_take()) {
            Some((_, t)) => Some((s.kind, t)),
            None => None,
        }
}

/// The take of a Main section.
pub open spec fn main_take() -> spec_fn(SectionView) -> Option<TakeView> {
    |s: SectionView|
        match section_take()(s) {
            Some((k, t)) => if k == SectionKind::Main {
                Some(t)
            } else {
                None
            },
            None => None,
        }
}

pub open spec fn main_take_of_module() -> spec_fn(ModuleView) -> Option<TakeView> {
    |m: ModuleView|
        match first_hit(m.sections, main_take()) {
            Some((_, t)) => Some(t),
            None => None,
        }
}

pub open spec fn main_take_of_page() -> spec_fn(crate::navigator::model::PageView) -> Option<
    TakeView,
> {
    |p: crate::navigator::model::PageView|
        match first_hit(p.modules, main_take_of_module()) {
            Some((_, t)) => Some(t),
            None => None,
        }
}

pub open spec fn main_take_of_asset() -> spec_fn(AssetView) -> Option<TakeView> {
    |a: AssetView|
        match first_hit(a.pages, main_take_of_page()) {
            Some((_, t)) => Some(t),
            None => None,
        }
}

impl ProjectView {
    /// The sections of the first module of the first page of the first asset.
    pub open spec fn first_sections(self) -> Seq<SectionView> {
        match self.module_at(0, 0, 0) {
            Some(m) => m.sections,
            None => Seq::empty(),
        }
    }

    /// The take of the first Main section that has one.
    pub open spec fn primary_take(self) -> Option<TakeView> {
        match first_hit(self.assets, main_take_of_asset()) {
            Some((_, t)) => Some(t),
            None => None,
        }
    }
}

fn patterns_take(patterns: &Vec<Pattern>) -> (r: Option<&TakeState>)
    ensures
        match first_hit(patterns@.map_values(|p: Pattern| p@), pattern_take()) {
            Some((_, t)) => r matches Some(x) && x@ == t,
            None => r is None,
        },
{
    let ghost s = patterns@.map_values(|p: Pattern| p@);
    let ghost f = pattern_take();
    let mut i: usize = 0;
    while i < patterns.len()
        invariant
            0 <= i <= patterns@.len(),
            s == patterns@.map_values(|p: Pattern| p@),
            f == pattern_take(),
            forall|j: int| 0 <= j < i ==> f(#[trigger] s[j]) is None,
        decreases patterns@.len() - i,
    {
        assert(s[i as int] == patterns@[i as int]@);
        if let Some(c) = &patterns[i].clip_source {
            if let Some(t) = &c.take {
                proof {
                    lemma_first_hit(s, f, i as int);
                }
                return Some(t);
            }
        }
        i += 1;
    }
    proof {
        lemma_no_hit(s, f);
    }
    None
}

/// A Main section without patterns replaced by one that holds the takes.
fn put_sections(project: &mut Project, sections: Vec<Section>)
    requires
        default_project(old(project)@),
    ensures
        fresh_but_sections(final(project)@, sections@.map_values(|s: Section| s@)),
{
    let ghost base = project@;
    let ghost s = sections@.map_values(|s: Section| s@);
    let ghost m = base.assets[0].pages[0].modules[0];
    if let Some(module) = project.module_mut(ModulePath { asset: 0, page: 0, module: 0 }) {
        module.sections = sections;
        assert(module@ =~= (ModuleView { sections: s, ..m }));
    }
    assert(project@ == base.with_module(0, 0, 0, ModuleView { sections: s, ..m }));
}

fn section_with(kind: SectionKind, patterns: Vec<Pattern>) -> (r: Section)
    ensures
        r@ == (SectionView {
            patterns: patterns@.map_values(|p: Pattern| p@),
            ..empty_section(r.uuid, kind)
        }),
        random_marks(r.uuid.value),
{
    let mut s = Section::new(kind);
    s.patterns = patterns;
    s
}

/// A fresh project with the take, where there is one, in its Main section.
fn project_with(take: Option<TakeState>) -> (r: Project)
    ensures
        match take {
            Some(t) => take_project(r@, Some(t@)),
            None => take_project(r@, None),
        },
{
    let mut project = Project::reset_to_default();
    match take {
        Some(t) => {
            let ghost tv = t@;
            let mut patterns: Vec<Pattern> = Vec::new();
            patterns.push(Pattern::of_take("Pattern 1".to_owned(), t));
            let main = section_with(SectionKind::Main, patterns);
            let ghost sv = main@;
            let mut sections: Vec<Section> = Vec::new();
            sections.push(main);
            assert(sections@.map_values(|s: Section| s@) =~= seq![sv]);
            put_sections(&mut project, sections);
            assert(take_section(sv, SectionKind::Main, seq![tv]));
            project
        },
        None => project,
    }
}

impl SessionState {
    /// A session whose project holds one take, where there is one, in the
    /// Main section.
    pub fn with_single_take(
        session_name: String,
        sample_rate: u32,
        time_sig_num: u32,
        target_lufs: Real32,
        zoom: Real32,
        snap_to_grid: bool,
        layer_names: Vec<String>,
        take: Option<TakeState>,
    ) -> (r: Self)
        ensures
            r@ == (SessionView {
                session_name: session_name@,
                sample_rate,
                time_sig_num,
                target_lufs,
                zoom,
                snap_to_grid,
                layer_names: layer_names@.map_values(|s: String| s@),
                project: r@.project,
                take: None,
                asset_meta: None,
            }),
            match take {
                Some(t) => main_project(r@.project, seq![t@]),
                None => default_project(r@.project),
            },
    {
        let project = project_with(take);
        SessionState {
            session_name,
            sample_rate,
            time_sig_num,
            target_lufs,
            zoom,
            snap_to_grid,
            layer_names,
            project,
            take: None,
            asset_meta: None,
        }
    }

    /// A session from takes per section. Each take becomes a pattern of the
    /// section of its kind. Main is there even without a take.
    pub fn with_section_takes(
        session_name: String,
        sample_rate: u32,
        time_sig_num: u32,
        target_lufs: Real32,
        zoom: Real32,
        snap_to_grid: bool,
        layer_names: Vec<String>,
        takes: Vec<(SectionKind, TakeState)>,
    ) -> (r: Self)
        ensures
            r@ == (SessionView {
                session_name: session_name@,
                sample_rate,
                time_sig_num,
                target_lufs,
                zoom,
                snap_to_grid,
                layer_names: layer_names@.map_values(|s: String| s@),
                project: r@.project,
                take: None,
                asset_meta: None,
            }),
            take_sections(r@.project.first_sections(), take_views(takes@)),
            fresh_but_sections(r@.project, r@.project.first_sections()),
    {
        let ghost all = take_views(takes@);
        let mut rest = takes;
        let mut intro: Vec<Pattern> = Vec::new();
        let mut main: Vec<Pattern> = Vec::new();
        let mut outro: Vec<Pattern> = Vec::new();
        let ghost mut done: int = 0;
        let ghost (fi, fm, fo) = (
            take_if(SectionKind::Intro),
            take_if(SectionKind::Main),
            take_if(SectionKind::Outro),
        );
        assert(all.skip(0) =~= all);
        while rest.len() > 0
            invariant
                0 <= done <= all.len(),
                fi == take_if(SectionKind::Intro),
                fm == take_if(SectionKind::Main),
                fo == take_if(SectionKind::Outro),
                take_views(rest@) == all.skip(done),
                take_patterns(pattern_views(intro@), picked(all.take(done), fi)),
                take_patterns(pattern_views(main@), picked(all.take(done), fm)),
                take_patterns(pattern_views(outro@), picked(all.take(done), fo)),
            decreases rest@.len(),
        {
            let ghost raw = rest@;
            let ghost before = take_views(raw);
            assert(before.len() == raw.len());
            assert(all.skip(done).len() == all.len() - done);
            let (kind, take) = rest.remove(0);
            proof {
                assert(before[0] == all.skip(done)[0]);
                assert forall|k: int| 0 <= k < rest@.len() implies (#[trigger] take_views(
                    rest@,
                )[k]) == all.skip(done + 1)[k] by {
                    assert(rest@[k] == raw[k + 1]);
                    assert(before[k + 1] == all.skip(done)[k + 1]);
                }
                assert(take_views(rest@) =~= all.skip(done + 1));
                assert(all[done] == (kind, take@));
                lemma_picked_take(all, fi, done);
                lemma_picked_take(all, fm, done);
                lemma_picked_take(all, fo, done);
            }
            let pat = Pattern::of_take("Pattern 1".to_owned(), take);
            let ghost pv = pat@;
            let ghost (i0, m0, o0) = (intro@, main@, outro@);
            match kind {
                SectionKind::Intro => {
                    intro.push(pat);
                    assert(pattern_views(intro@) =~= pattern_views(i0).push(pv));
                },
                SectionKind::Main => {
                    main.push(pat);
                    assert(pattern_views(main@) =~= pattern_views(m0).push(pv));
                },
                SectionKind::Outro => {
                    outro.push(pat);
                    assert(pattern_views(outro@) =~= pattern_views(o0).push(pv));
                },
            }
            proof {
                done = done + 1;
            }
        }
        assert(done == all.len()) by {
            assert(take_views(rest@).len() == 0);
        }
        assert(all.take(done) =~= all);
        let mut sections: Vec<Section> = Vec::new();
        let ghost (iv, mv, ov) = (
            pattern_views(intro@),
            pattern_views(main@),
            pattern_views(outro@),
        );
        if intro.len() > 0 {
            sections.push(section_with(SectionKind::Intro, intro));
        }
        sections.push(section_with(SectionKind::Main, main));
        if outro.len() > 0 {
            sections.push(section_with(SectionKind::Outro, outro));
        }
        let ghost sv = sections@.map_values(|s: Section| s@);
        assert(take_sections(sv, all));
        let mut project = Project::reset_to_default();
        put_sections(&mut project, sections);
        proof {
            lemma_first_sections(project@, sv);
        }
        SessionState {
            session_name,
            sample_rate,
            time_sig_num,
            target_lufs,
            zoom,
            snap_to_grid,
            layer_names,
            project,
            take: None,
            asset_meta: None,
        }
    }

    /// The take of each section of the first module that has one, with the
    /// kind of the section.
    pub fn section_takes(&self) -> (r: Vec<(SectionKind, TakeState)>)
        ensures
            take_views(r@) == picked(self@.project.first_sections(), section_take()),
    {
        let mut out: Vec<(SectionKind, TakeState)> = Vec::new();
        let ghost f = section_take();
        let ghost s = self@.project.first_sections();
        match self.project.module(ModulePath { asset: 0, page: 0, module: 0 }) {
            Some(module) => {
                assert(s == module@.sections);
                let mut i: usize = 0;
                while i < module.sections.len()
                    invariant
                        0 <= i <= module.sections@.len(),
                        s == module@.sections,
                        f == section_take(),
                        take_views(out@) =~= picked(s.take(i as int), f),
                    decreases module.sections@.len() - i,
                {
                    let section = &module.sections[i];
                    proof {
                        lemma_picked_take(s, f, i as int);
                        assert(s[i as int] == section@);
                    }
                    if let Some(t) = patterns_take(&section.patterns) {
                        let ghost before = out@;
                        let copy = t.clone();
                        let ghost v = (section.kind, copy@);
                        out.push((section.kind, copy));
                        assert(take_views(out@) =~= take_views(before).push(v));
                    }
                    i += 1;
                }
                assert(s.take(i as int) =~= s);
            },
            None => {
                assert(take_views(out@) =~= picked(s, f));
            },
        }
        out
    }

    /// The session's primary take: that of the first Main section that has
    /// one.
    pub fn primary_take(&self) -> (r: Option<&TakeState>)
        ensures
            match self@.project.primary_take() {
                Some(t) => r matches Some(x) && x@ == t,
                None => r is None,
            },
    {
        let ghost s = self@.project.assets;
        let ghost f = main_take_of_asset();
        let mut i: usize = 0;
        while i < self.project.assets.len()
            invariant
                0 <= i <= self.project.assets@.len(),
                s == self@.project.assets,
                f == main_take_of_asset(),
                forall|j: int| 0 <= j < i ==> f(#[trigger] s[j]) is None,
            decreases self.project.assets@.len() - i,
        {
            assert(s[i as int] == self.project.assets@[i as int]@);
            if let Some(t) = asset_main_take(&self.project.assets[i]) {
                proof {
                    lemma_first_hit(s, f, i as int);
                }
                return Some(t);
            }
            i += 1;
        }
        proof {
            lemma_no_hit(s, f);
        }
        None
    }
}

fn module_main_take(m: &crate::navigator::model::Module) -> (r: Option<&TakeState>)
    ensures
        match main_take_of_module()(m@) {
            Some(t) => r matches Some(x) && x@ == t,
            None => r is None,
        },
{
    let ghost s = m@.sections;
    let ghost f = main_take();
    let mut i: usize = 0;
    while i < m.sections.len()
        invariant
            0 <= i <= m.sections@.len(),
            s == m@.sections,
            f == main_take(),
            forall|j: int| 0 <= j < i ==> f(#[trigger] s[j]) is None,
        decreases m.sections@.len() - i,
    {
        assert(s[i as int] == m.sections@[i as int]@);
        if m.sections[i].kind == SectionKind::Main {
            if let Some(t) = patterns_take(&m.sections[i].patterns) {
                proof {
                    lemma_first_hit(s, f, i as int);
                }
                return Some(t);
            }
        }
        i += 1;
    }
    proof {
        lemma_no_hit(s, f);
    }
    None
}

fn page_main_take(p: &crate::navigator::model::Page) -> (r: Option<&TakeState>)
    ensures
        match main_take_of_page()(p@) {
            Some(t) => r matches Some(x) && x@ == t,
            None => r is None,
        },
{
    let ghost s = p@.modules;
    let ghost f = main_take_of_module();
    let mut i: usize = 0;
    while i < p.modules.len()
        invariant
            0 <= i <= p.modules@.len(),
            s == p@.modules,
            f == main_take_of_module(),
            forall|j: int| 0 <= j < i ==> f(#[trigger] s[j]) is None,
        decreases p.modules@.len() - i,
    {
        assert(s[i as int] == p.modules@[i as int]@);
        if let Some(t) = module_main_take(&p.modules[i]) {
            proof {
                lemma_first_hit(s, f, i as int);
            }
            return Some(t);
        }
        i += 1;
    }
    proof {
        lemma_no_hit(s, f);
    }
    None
}

fn asset_main_take(a: &crate::navigator::model::Asset) -> (r: Option<&TakeState>)
    ensures
        match main_take_of_asset()(a@) {
            Some(t) => r matches Some(x) && x@ == t,
            None => r is None,
        },
{
    let ghost s = a@.pages;
    let ghost f = main_take_of_page();
    let mut i: usize = 0;
    while i < a.pages.len()
        invariant
            0 <= i <= a.pages@.len(),
            s == a@.pages,
            f == main_take_of_page(),
            forall|j: int| 0 <= j < i ==> f(#[trigger] s[j]) is None,
        decreases a.pages@.len() - i,
    {
        assert(s[i as int] == a.pages@[i as int]@);
        if let Some(t) = page_main_take(&a.pages[i]) {
            proof {
                lemma_first_hit(s, f, i as int);
            }
            return Some(t);
        }
        i += 1;
    }
    proof {
        lemma_no_hit(s, f);
    }
    None
}

/// The contents of patterns.
pub open spec fn pattern_views(s: Seq<Pattern>) -> Seq<PatternView> {
    s.map_values(|p: Pattern| p@)
}

pub proof fn lemma_first_sections(v: ProjectView, sections: Seq<SectionView>)
    requires
        fresh_but_sections(v, sections),
    ensures
        v.first_sections() == sections,
{
}

/// A fresh project whose asset has the header, where there is one, and whose
/// Main section holds the take, where there is one.
pub open spec fn migrated_project(
    v: ProjectView,
    take: Option<TakeView>,
    meta: Option<AssetMetaView>,
) -> bool {
    exists|base: ProjectView|
        {
            &&& #[trigger] take_project(base, take)
            &&& v == match meta {
                Some(m) => base.with_asset(0, AssetView { meta: m, ..base.assets[0] }),
                None => base,
            }
        }
}

/// A fresh project whose Main section holds the take, where there is one.
pub open spec fn take_project(v: ProjectView, take: Option<TakeView>) -> bool {
    match take {
        Some(t) => main_project(v, seq![t]),
        None => default_project(v),
    }
}

/// Fold the take and header of an older file into the project. A project that
/// is there already stays, and so does an empty one with nothing to fold.
pub fn migrate_into_project(state: &mut SessionState)
    ensures
        final(state)@ == (SessionView {
            project: final(state)@.project,
            take: None,
            asset_meta: None,
            ..old(state)@
        }),
        if old(state)@.project.assets.len() > 0 || (old(state)@.take is None
            && old(state)@.asset_meta is None) {
            final(state)@.project == old(state)@.project
        } else {
            migrated_project(final(state)@.project, old(state)@.take, old(state)@.asset_meta)
        },
{
    let ghost (tv, mv) = (state@.take, state@.asset_meta);
    let legacy_take = state.take.take();
    let legacy_meta = state.asset_meta.take();
    if !state.project.is_empty() || (legacy_take.is_none() && legacy_meta.is_none()) {
        return;
    }
    let mut project = project_with(legacy_take);
    let ghost base = project@;
    proof {
        lemma_has_asset(base, tv);
    }
    if let Some(meta) = legacy_meta {
        project.assets[0].meta = meta;
        proof {
            let want = AssetView { meta: meta@, ..base.assets[0] };
            assert(project.assets@[0]@ =~= want);
            assert(project@ =~= base.with_asset(0, want));
        }
    }
    assert(take_project(base, tv));
    assert(migrated_project(project@, tv, mv));
    state.project = project;
}

proof fn lemma_has_asset(v: ProjectView, take: Option<TakeView>)
    requires
        take_project(v, take),
    ensures
        v.assets.len() == 1,
{
}

// Laws.

/// What a section with these takes gives: the first of them.
pub proof fn lemma_section_take(s: SectionView, kind: SectionKind, takes: Seq<TakeView>)
    requires
        take_section(s, kind, takes),
    ensures
        takes.len() > 0 ==> section_take()(s) == Some((kind, takes[0])),
        takes.len() == 0 ==> section_take()(s) is None,
{
    let f = pattern_take();
    if takes.len() > 0 {
        assert(take_pattern(s.patterns[0], takes[0]));
        assert(hits_first(s.patterns, f, 0));
        lemma_first_hit(s.patterns, f, 0);
    } else {
        lemma_no_hit(s.patterns, f);
    }
}

/// The takes that were put into sections come out again: of each kind that
/// has any, the first, in the order Intro, Main, Outro.
pub proof fn section_takes_come_back(v: ProjectView, takes: Seq<(SectionKind, TakeView)>)
    requires
        take_sections(v.first_sections(), takes),
    ensures
        picked(v.first_sections(), section_take()) == first_of(takes, SectionKind::Intro)
            + first_of(takes, SectionKind::Main) + first_of(takes, SectionKind::Outro),
{
    let s = v.first_sections();
    let f = section_take();
    let i = takes_of(takes, SectionKind::Intro);
    let m = takes_of(takes, SectionKind::Main);
    let o = takes_of(takes, SectionKind::Outro);
    let n = if i.len() > 0 {
        1int
    } else {
        0int
    };
    if i.len() > 0 {
        lemma_section_take(s[0], SectionKind::Intro, i);
    }
    lemma_section_take(s[n], SectionKind::Main, m);
    if o.len() > 0 {
        lemma_section_take(s[n + 1], SectionKind::Outro, o);
    }
    assert(s.take(0) =~= Seq::empty());
    assert(picked(s.take(0), f) =~= Seq::empty());
    lemma_picked_take(s, f, 0);
    if s.len() > 1 {
        lemma_picked_take(s, f, 1);
    }
    if s.len() > 2 {
        lemma_picked_take(s, f, 2);
    }
    assert(s.take(s.len() as int) =~= s);
    assert(picked(s, f) =~= first_of(takes, SectionKind::Intro) + first_of(
        takes,
        SectionKind::Main,
    ) + first_of(takes, SectionKind::Outro));
}

/// The first take of a kind, with the kind; empty where there is none.
pub open spec fn first_of(
    takes: Seq<(SectionKind, TakeView)>,
    kind: SectionKind,
) -> Seq<(SectionKind, TakeView)> {
    let t = takes_of(takes, kind);
    if t.len() > 0 {
        seq![(kind, t[0])]
    } else {
        Seq::empty()
    }
}

/// A take that was put into the Main section of a project is its primary
/// take.
pub proof fn single_take_is_primary(v: ProjectView, take: TakeView)
    requires
        main_project(v, seq![take]),
    ensures
        v.primary_take() == Some(take),
{
    let s = choose|s: SectionView|
        #[trigger] take_section(s, SectionKind::Main, seq![take]) && fresh_but_sections(
            v,
            seq![s],
        );
    lemma_first_sections(v, seq![s]);
    let a = v.assets[0];
    let p = a.pages[0];
    let m = p.modules[0];
    assert(m.sections == seq![s]);
    lemma_section_take(s, SectionKind::Main, seq![take]);
    assert(hits_first(m.sections, main_take(), 0));
    lemma_first_hit(m.sections, main_take(), 0);
    assert(hits_first(p.modules, main_take_of_module(), 0));
    lemma_first_hit(p.modules, main_take_of_module(), 0);
    assert(hits_first(a.pages, main_take_of_page(), 0));
    lemma_first_hit(a.pages, main_take_of_page(), 0);
    assert(hits_first(v.assets, main_take_of_asset(), 0));
    lemma_first_hit(v.assets, main_take_of_asset(), 0);
}

} // verus!
