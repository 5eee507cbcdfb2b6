//! Where a session keeps its takes, which of them is the primary one, and what
//! becomes of older files. What templates of the mixer hold.
use vstd::prelude::*;

use vstd::arithmetic::power2::lemma2_to64;
use vstd::arithmetic::power2::lemma_pow2_adds;
use vstd::arithmetic::power2::pow2;

use crate::adaptive::default_slot;
use crate::adaptive::new_mixer;
use crate::adaptive::one;
use crate::adaptive::source_preset_of;
use crate::adaptive::target_preset_of;
use crate::adaptive::two;
use crate::adaptive::zero;
use crate::adaptive::MixerView;
use crate::adaptive::Mode;
use crate::adaptive::Mood;
use crate::adaptive::SMOOTH_BITS;
use crate::hub::mixer::preset_at;
use crate::hub::mixer::preset_named;
use crate::hub::mixer::SMOOTH_MAX_BITS;
use crate::hub::state::LUFS_FIRST_BITS;
use crate::hub::state::LUFS_MIN_BITS;
use crate::hub::state::ZOOM_MAX_BITS;
use crate::hub::state::ZOOM_MIN_BITS;
use crate::navigator::model::AssetMetaView;
use crate::navigator::model::AssetView;
use crate::navigator::model::PatternView;
use crate::navigator::model::ProjectView;
use crate::navigator::model::SectionKind;
use crate::navigator::model::SectionView;
use crate::number::Real32;
use crate::number::HALF_BITS;
use crate::params::GAIN_DB_MAX_BITS;
use crate::params::GAIN_DB_MIN_BITS;
use crate::seqs::first_hit;
use crate::seqs::first_index;
use crate::seqs::lemma_first_hit_found;
use crate::seqs::lemma_first_index_found;
use crate::seqs::lemma_no_hit;
use crate::session::fresh_but_sections;
use crate::session::lemma_first_sections;
use crate::session::main_take;
use crate::session::main_take_of_asset;
use crate::session::main_take_of_module;
use crate::session::main_take_of_page;
use crate::session::migrated_project;
use crate::session::pattern_take;
use crate::session::single_take_is_primary;
use crate::session::take_pattern;
use crate::session::take_project;
use crate::session::take_section;
use crate::session::take_sections;
use crate::session::takes_of;
use crate::take::TakeView;
use crate::template::count_error;
use crate::template::fixed_text;
use crate::template::formula_of;
use crate::template::in_bounds;
use crate::template::lemma_formula_back;
use crate::template::lemma_values_place;
use crate::template::loaded;
use crate::template::real_of;
use crate::template::row_in_bounds;
use crate::template::row_stands;
use crate::template::shown_as_template;
use crate::template::slot_in_bounds;
use crate::template::slot_stands;
use crate::template::spaced;
use crate::template::template_error;
use crate::template::template_path;
use crate::template::template_values;
use crate::template::template_words;
use crate::template::unreadable;
use crate::template::whole_number;
use crate::template::word_error;
use crate::text::begins_with;
use crate::text::ends_with;

verus! {

/// The take that a pattern holds.
pub open spec fn holds_take(p: PatternView, t: TakeView) -> bool {
    p.clip_source matches Some(c) && c.take == Some(t)
}

/// Each take is a pattern of its own, "Pattern 1", which holds it and is
/// otherwise like a new one: enabled, without regions.
pub proof fn takes_become_patterns(
    s: SectionView,
    kind: SectionKind,
    takes: Seq<TakeView>,
    i: int,
)
    requires
        take_section(s, kind, takes),
    ensures
        s.kind == kind,
        s.name.len() == 0,
        s.patterns.len() == takes.len(),
        0 <= i < takes.len() ==> {
            let p = s.patterns[i];
            &&& holds_take(p, takes[i])
            &&& p.id == "Pattern 1"@ && p.enabled && !p.ref_edit
            &&& p.in_regions.len() == 0 && p.out_regions.len() == 0
        },
{
    if 0 <= i < takes.len() {
        assert(take_pattern(s.patterns[i], takes[i]));
    }
}

/// The takes of a kind are those that were given for it, in order, and each
/// take is of one kind.
pub proof fn takes_go_to_their_kind(takes: Seq<(SectionKind, TakeView)>, kind: SectionKind, t: TakeView)
    ensures
        takes_of(takes, kind).contains(t) <==> takes.contains((kind, t)),
        takes.len() == takes_of(takes, SectionKind::Intro).len() + takes_of(
            takes,
            SectionKind::Main,
        ).len() + takes_of(takes, SectionKind::Outro).len(),
        takes_of(takes.push((kind, t)), kind) == takes_of(takes, kind).push(t),
    decreases takes.len(),
{
    assert(takes.push((kind, t)).drop_last() =~= takes);
    if takes.len() > 0 {
        let o = takes.drop_last();
        takes_go_to_their_kind(o, kind, t);
        let (a, b) = (takes_of(o, kind), takes_of(takes, kind));
        let x = takes.last();
        if takes.contains((kind, t)) {
            let k = choose|k: int| 0 <= k < takes.len() && takes[k] == (kind, t);
            if k < o.len() {
                assert(o[k] == (kind, t));
                assert(a.contains(t));
                let j = choose|j: int| 0 <= j < a.len() && a[j] == t;
                assert(b[j] == t);
            } else {
                assert(b[b.len() - 1] == t);
            }
        }
        if b.contains(t) {
            let j = choose|j: int| 0 <= j < b.len() && b[j] == t;
            if j < a.len() {
                assert(a[j] == t);
                assert(a.contains(t));
                let k = choose|k: int| 0 <= k < o.len() && o[k] == (kind, t);
                assert(takes[k] == (kind, t));
            } else {
                assert(takes[takes.len() - 1] == (kind, t));
            }
        }
    }
}

/// The sections of a session are in order, each kind once. Main is always
/// there; Intro and Outro only with takes.
pub proof fn sections_hold_the_takes(
    s: Seq<SectionView>,
    takes: Seq<(SectionKind, TakeView)>,
    kind: SectionKind,
)
    requires
        take_sections(s, takes),
    ensures
        forall|i: int, j: int|
            0 <= i < j < s.len() ==> (#[trigger] s[i]).kind.order() < (
            #[trigger] s[j]).kind.order(),
        (exists|i: int| 0 <= i < s.len() && (#[trigger] s[i]).kind == kind) <==> kind
            == SectionKind::Main || takes_of(takes, kind).len() > 0,
        forall|i: int|
            0 <= i < s.len() ==> (#[trigger] s[i]).patterns.len() == takes_of(
                takes,
                s[i].kind,
            ).len(),
{
    let i = takes_of(takes, SectionKind::Intro);
    let o = takes_of(takes, SectionKind::Outro);
    let n = if i.len() > 0 {
        1int
    } else {
        0int
    };
    assert(s[n].kind == SectionKind::Main);
    if i.len() > 0 {
        assert(s[0].kind == SectionKind::Intro);
    }
    if o.len() > 0 {
        assert(s[n + 1].kind == SectionKind::Outro);
    }
}

/// A fresh project has one asset, one page and one module, with the given
/// sections in it.
pub proof fn fresh_projects_hold_their_sections(v: ProjectView, s: Seq<SectionView>)
    requires
        fresh_but_sections(v, s),
    ensures
        v.assets.len() == 1 && v.assets[0].id == "Asset 1"@,
        v.assets[0].pages.len() == 1 && v.assets[0].pages[0].id == "Page 1"@,
        v.assets[0].pages[0].modules.len() == 1,
        v.assets[0].pages[0].modules[0].id == "Module 1"@,
        v.assets[0].pages[0].modules[0].sections == s,
        v.first_sections() == s,
{
    lemma_first_sections(v, s);
}

/// The take at a place of the tree: that of a pattern of a Main section.
pub open spec fn main_take_at(
    v: ProjectView,
    a: int,
    p: int,
    m: int,
    s: int,
    t: int,
) -> Option<TakeView> {
    match v.pattern_at(a, p, m, s, t) {
        Some(x) => if v.assets[a].pages[p].modules[m].sections[s].kind == SectionKind::Main {
            pattern_take()(x)
        } else {
            None
        },
        None => None,
    }
}

/// `x` comes before `y` in reading order, or is the same place.
pub open spec fn reads_first(
    x: (int, int, int, int, int),
    y: (int, int, int, int, int),
) -> bool {
    ||| x.0 < y.0
    ||| x.0 == y.0 && x.1 < y.1
    ||| x.0 == y.0 && x.1 == y.1 && x.2 < y.2
    ||| x.0 == y.0 && x.1 == y.1 && x.2 == y.2 && x.3 < y.3
    ||| x.0 == y.0 && x.1 == y.1 && x.2 == y.2 && x.3 == y.3 && x.4 <= y.4
}

/// The primary take is the first take of a Main section in reading order. There
/// is one where any Main section has a take.
pub proof fn the_primary_take_is_the_first(v: ProjectView, a: int, p: int, m: int, s: int, t: int)
    ensures
        v.primary_take() matches Some(x) ==> exists|b: int, q: int, n: int, r: int, u: int|
            #[trigger] main_take_at(v, b, q, n, r, u) == Some(x) && (main_take_at(v, a, p, m, s, t)
                is Some ==> reads_first((b, q, n, r, u), (a, p, m, s, t))),
        main_take_at(v, a, p, m, s, t) is Some ==> v.primary_take() is Some,
{
    let here = main_take_at(v, a, p, m, s, t) is Some;
    if here {
        lemma_first(v.assets[a].pages[p].modules[m].sections[s].patterns, pattern_take(), t);
        lemma_first(v.assets[a].pages[p].modules[m].sections, main_take(), s);
        lemma_first(v.assets[a].pages[p].modules, main_take_of_module(), m);
        lemma_first(v.assets[a].pages, main_take_of_page(), p);
        lemma_first(v.assets, main_take_of_asset(), a);
    }
    if let Some((b, x)) = first_hit(v.assets, main_take_of_asset()) {
        lemma_first_hit_found(v.assets, main_take_of_asset());
        let pages = v.assets[b].pages;
        lemma_first_hit_found(pages, main_take_of_page());
        let q = (first_hit(pages, main_take_of_page())->0).0;
        let modules = pages[q].modules;
        lemma_first_hit_found(modules, main_take_of_module());
        let n = (first_hit(modules, main_take_of_module())->0).0;
        let sections = modules[n].sections;
        lemma_first_hit_found(sections, main_take());
        let r = (first_hit(sections, main_take())->0).0;
        let patterns = sections[r].patterns;
        lemma_first_hit_found(patterns, pattern_take());
        let u = (first_hit(patterns, pattern_take())->0).0;
        assert(main_take_at(v, b, q, n, r, u) == Some(x));
    }
}

proof fn lemma_first<T, R>(s: Seq<T>, f: spec_fn(T) -> Option<R>, i: int)
    requires
        0 <= i < s.len(),
        f(s[i]) is Some,
    ensures
        first_hit(s, f) matches Some((k, r)) && 0 <= k <= i && f(s[k]) == Some(r),
{
    lemma_first_hit_found(s, f);
    if first_hit(s, f) is None {
        assert(f(s[i]) is None);
    }
}

/// An older file keeps its take as the primary one and its header in its one
/// asset.
pub proof fn older_files_keep_their_take(
    v: ProjectView,
    take: Option<TakeView>,
    meta: Option<AssetMetaView>,
)
    requires
        migrated_project(v, take, meta),
    ensures
        v.primary_take() == take,
        v.assets.len() == 1,
        meta matches Some(m) ==> v.assets[0].meta == m,
        v.first_sections().len() == 1 && v.first_sections()[0].kind == SectionKind::Main,
{
    let base = choose|base: ProjectView|
        {
            &&& #[trigger] take_project(base, take)
            &&& v == match meta {
                Some(m) => base.with_asset(0, AssetView { meta: m, ..base.assets[0] }),
                None => base,
            }
        };
    lemma_take_project(base, take);
    lemma_same_pages(base, v);
}

proof fn lemma_take_project(v: ProjectView, take: Option<TakeView>)
    requires
        take_project(v, take),
    ensures
        v.primary_take() == take,
        v.assets.len() == 1,
        v.module_at(0, 0, 0) is Some,
        v.first_sections().len() == 1 && v.first_sections()[0].kind == SectionKind::Main,
{
    match take {
        Some(t) => {
            single_take_is_primary(v, t);
            let s = choose|s: SectionView|
                #[trigger] take_section(s, SectionKind::Main, seq![t]) && fresh_but_sections(
                    v,
                    seq![s],
                );
            fresh_projects_hold_their_sections(v, seq![s]);
        },
        None => {
            let a = v.assets[0];
            let p = a.pages[0];
            let m = p.modules[0];
            let s = m.sections[0];
            lemma_no_hit(s.patterns, pattern_take());
            lemma_no_hit(m.sections, main_take());
            lemma_no_hit(p.modules, main_take_of_module());
            lemma_no_hit(a.pages, main_take_of_page());
            lemma_no_hit(v.assets, main_take_of_asset());
        },
    }
}

proof fn lemma_same_pages(v: ProjectView, w: ProjectView)
    requires
        v.assets.len() == 1,
        w.assets.len() == 1,
        v.assets[0].pages == w.assets[0].pages,
    ensures
        v.primary_take() == w.primary_take(),
        v.first_sections() == w.first_sections(),
{
    let f = main_take_of_asset();
    lemma_first_hit_found(v.assets, f);
    lemma_first_hit_found(w.assets, f);
    assert(f(v.assets[0]) == f(w.assets[0]));
    if first_hit(v.assets, f) is None {
        assert(f(v.assets[0]) is None);
    }
    if first_hit(w.assets, f) is None {
        assert(f(w.assets[0]) is None);
    }
}

// Templates.

/// A number chooses the formula that is nearest to it: from halfway between two
/// formulas on it chooses the upper one.
pub proof fn numbers_choose_the_nearest_formula(x: Real32, k: u8)
    requires
        !x.nan(),
        1 <= k <= 8,
    ensures
        ({
            let twice = whole_number((2 * k + 1) as u8);
            let halfway = Real32 { bits: (twice.bits - 0x80_0000) as u32 };
            formula_of(x) <= k <==> x.below(halfway)
        }),
        1 <= formula_of(x) <= 9,
        formula_of(whole_number(k)) == k,
{
    lemma_formula_back(k);
}

/// What is not a number chooses the first formula.
pub proof fn no_number_chooses_the_first_formula(x: Real32)
    requires
        x.nan(),
    ensures
        formula_of(x) == 1,
{
}

/// A small whole number is written as the value that it is: so many times the
/// smallest step, of which one has 2 to the power of 149.
pub proof fn whole_numbers_have_their_value(n: u8)
    ensures
        whole_number(n).steps() == n * pow2(149),
        !whole_number(n).nan(),
        whole_number(n).bits < 0x8000_0000,
{
    lemma2_to64();
    if n > 0 {
        if n < 2 {
            lemma_whole(n, 0x80_0000, 0x3f00_0000, 23, 126);
        } else if n < 4 {
            lemma_whole(n, 0x40_0000, 0x3f80_0000, 22, 127);
        } else if n < 8 {
            lemma_whole(n, 0x20_0000, 0x4000_0000, 21, 128);
        } else if n < 16 {
            lemma_whole(n, 0x10_0000, 0x4080_0000, 20, 129);
        } else if n < 32 {
            lemma_whole(n, 0x8_0000, 0x4100_0000, 19, 130);
        } else if n < 64 {
            lemma_whole(n, 0x4_0000, 0x4180_0000, 18, 131);
        } else if n < 128 {
            lemma_whole(n, 0x2_0000, 0x4200_0000, 17, 132);
        } else {
            lemma_whole(n, 0x1_0000, 0x4280_0000, 16, 133);
        }
    } else {
        assert(0 * pow2(149) == 0);
    }
}

proof fn lemma_whole(n: u8, unit: int, base: int, w: nat, e: nat)
    requires
        w <= 23,
        w + e == 149,
        unit == pow2(w),
        0x80_0000 <= n * unit < 0x100_0000,
        base == e * 0x80_0000,
        whole_number(n).bits == base + n * unit,
        0x80_0000 <= base < 0x7000_0000,
    ensures
        whole_number(n).steps() == n * pow2(149),
{
    let k = base + n * unit;
    assert(k / 0x80_0000 == e + 1);
    assert(k % 0x80_0000 == n * unit - 0x80_0000);
    lemma_pow2_adds(w, e);
    assert((n * unit) * pow2(e) == n * (unit * pow2(e))) by (nonlinear_arith);
}

/// A template has the version first, then the slots one behind the other with
/// six numbers each, and then for each mood its weights and its mask.
pub proof fn templates_stand_in_order(m: MixerView, s: int, k: int)
    requires
        in_bounds(m),
        0 <= s < 8,
        0 <= k < 3,
    ensures
        template_values(m).len() == 97,
        template_values(m)[0] == zero(),
        slot_stands(template_values(m), 1 + s * 6, m.slot_params[s]),
        row_stands(template_values(m), 49 + k * 16, m.mood_weight[k]),
        row_stands(template_values(m), 57 + k * 16, m.balancer_mask[k]),
{
    lemma_values_place(m);
    assert(slot_stands(template_values(m), 1 + s * 6, m.slot_params[s]));
    assert(row_stands(template_values(m), 49 + k * 16, m.mood_weight[k]));
}

/// A template is written as its version, "0", and behind it each number in
/// order.
pub proof fn templates_are_written_in_order(m: MixerView, i: int)
    requires
        in_bounds(m),
        0 < i < 97,
    ensures
        template_words(m).len() == 97,
        template_words(m)[0] == "0"@,
        template_words(m)[i] == fixed_text(template_values(m)[i]),
{
    lemma_values_place(m);
}

/// Whatever numbers a template has, its slots and masks are in their bounds
/// after it was read, and nothing else of the mixer changes.
pub proof fn read_templates_are_in_bounds(m: MixerView, v: Seq<Real32>)
    requires
        v.len() == 97,
        forall|i: int| 0 <= i < 97 ==> !(#[trigger] v[i]).nan(),
    ensures
        in_bounds(loaded(m, v)),
        (MixerView {
            slot_params: m.slot_params,
            mood_weight: m.mood_weight,
            balancer_mask: m.balancer_mask,
            ..loaded(m, v)
        }) == m,
{
    let r = loaded(m, v);
    assert forall|s: int| 0 <= s < 8 implies slot_in_bounds(#[trigger] r.slot_params[s]) by {
        let o = 1 + s * 6;
        assert(!v[o].nan() && !v[o + 1].nan() && !v[o + 2].nan() && !v[o + 3].nan() && !v[o
            + 4].nan() && !v[o + 5].nan());
    }
    assert forall|k: int| 0 <= k < 3 implies row_in_bounds(#[trigger] r.mood_weight[k])
        && row_in_bounds(r.balancer_mask[k]) by {
        assert forall|s: int| 0 <= s < 8 implies zero().at_most(#[trigger] r.mood_weight[k][s])
            && r.mood_weight[k][s].at_most(one()) by {
            assert(!v[49 + k * 16 + s].nan());
        }
        assert forall|s: int| 0 <= s < 8 implies zero().at_most(#[trigger] r.balancer_mask[k][s])
            && r.balancer_mask[k][s].at_most(one()) by {
            assert(!v[57 + k * 16 + s].nan());
        }
    }
}

/// A template is taken where it has 97 words that all read as values. Else the
/// first word that does not is told, or how many there are.
pub proof fn wrong_templates_are_told(words: Seq<Seq<char>>, i: int)
    ensures
        template_error(words) is None <==> words.len() == 97 && forall|k: int|
            0 <= k < words.len() ==> real_of(#[trigger] words[k]) is Ok,
        0 <= i < words.len() && real_of(words[i]) is Err && (forall|k: int|
            0 <= k < i ==> real_of(#[trigger] words[k]) is Ok) ==> template_error(words) == Some(
            word_error(words[i]),
        ),
        words.len() != 97 && (forall|k: int|
            0 <= k < words.len() ==> real_of(#[trigger] words[k]) is Ok) ==> template_error(words)
            == Some(count_error(words.len())),
{
    lemma_first_index_found(words, unreadable());
    match first_index(words, unreadable()) {
        Some(j) => {
            assert(real_of(words[j]) is Err);
            if 0 <= i < words.len() && real_of(words[i]) is Err && (forall|k: int|
                0 <= k < i ==> real_of(#[trigger] words[k]) is Ok) {
                assert(unreadable()(words[i]));
                assert(!(j < i));
                assert(!(i < j));
            }
        },
        None => {
            assert forall|k: int| 0 <= k < words.len() implies real_of(#[trigger] words[k]) is Ok by {
                assert(!unreadable()(words[k]));
            }
        },
    }
}

/// The error of a word tells the word, and that of a count the count.
pub proof fn template_errors_tell_what_is_wrong(w: Seq<char>, n: nat)
    ensures
        ends_with(count_error(n), crate::text::decimal_text(n)),
        begins_with(word_error(w), "parse `"@ + w),
        ends_with(word_error(w), real_of(w)->Err_0),
{
    let (a, b) = (count_error(n), word_error(w));
    let d = crate::text::decimal_text(n);
    let x = "parse `"@ + w;
    let e = real_of(w)->Err_0;
    assert(a.subrange(a.len() - d.len(), a.len() as int) =~= d);
    assert(b.subrange(0, x.len() as int) =~= x);
    assert(b.subrange(b.len() - e.len(), b.len() as int) =~= e);
}

/// Words are parted by one space each.
pub proof fn words_are_spaced(words: Seq<Seq<char>>, w: Seq<char>)
    ensures
        words.len() > 0 ==> spaced(words.push(w)) == spaced(words) + seq![' '] + w,
        spaced(seq![w]) == w,
        spaced(Seq::empty()).len() == 0,
{
    assert(words.push(w).drop_last() =~= words);
    if words.len() > 0 {
        assert(spaced(words.push(w)) =~= spaced(words) + seq![' '] + w);
    }
}

/// The file of a template has its ending once. It is listed unless its name
/// begins with a full stop.
pub proof fn template_files_have_their_ending(name: Seq<char>)
    ensures
        ends_with(template_path(name), ".txt"@),
        begins_with(template_path(name), name),
        template_path(template_path(name)) == template_path(name),
        ends_with(name, ".txt"@) ==> template_path(name) == name,
        name.len() > 0 ==> (shown_as_template(template_path(name)) <==> name[0] != '.'),
{
    reveal_strlit(".txt");
    reveal_strlit(".");
    let t = template_path(name);
    assert(t.subrange(0, name.len() as int) =~= name);
    assert(t.subrange(t.len() - 4, t.len() as int) =~= ".txt"@);
    if name.len() > 0 {
        assert(t[0] == name[0]);
        if name[0] == '.' {
            assert(t.subrange(0, 1) =~= "."@);
        } else {
            assert(t.subrange(0, 1)[0] != "."@[0]);
        }
    }
}

// Presets of the mixer.

/// There is one preset for each formula, called by its number, clipped to
/// between nothing and one.
pub proof fn presets_are_one_for_each_formula(i: int, j: int)
    requires
        0 <= i < 9,
        0 <= j < 9,
    ensures
        ({
            let (name, p) = source_preset_of(i);
            &&& name.len() == 2 && name[0] == 'F' && name[1] as int == 49 + i
            &&& p.formula == i + 1
            &&& p.minimum == zero() && p.maximum == one()
            &&& slot_in_bounds(p)
            &&& preset_named(name) == Some(p)
        }),
        i != j ==> source_preset_of(i).0 != source_preset_of(j).0,
{
    lemma_preset_name(i);
    lemma_preset_name(j);
    let name = source_preset_of(i).0;
    assert forall|k: int| 0 <= k < i implies (#[trigger] source_preset_of(k)).0 != name by {
        lemma_preset_name(k);
    }
    assert(preset_at(name, i));
    let c = choose|c: int| preset_at(name, c);
    lemma_preset_name(c);
}

proof fn lemma_preset_name(i: int)
    requires
        0 <= i < 9,
    ensures
        ({
            let name = source_preset_of(i).0;
            name.len() == 2 && name[0] == 'F' && name[1] as int == 49 + i
        }),
{
    reveal_strlit("F1");
    reveal_strlit("F2");
    reveal_strlit("F3");
    reveal_strlit("F4");
    reveal_strlit("F5");
    reveal_strlit("F6");
    reveal_strlit("F7");
    reveal_strlit("F8");
    reveal_strlit("F9");
}

/// No preset has another name.
pub proof fn other_names_have_no_preset(label: Seq<char>)
    requires
        label.len() != 2 || label[0] != 'F' || !(49 <= label[1] as int <= 57),
    ensures
        preset_named(label) is None,
{
    if preset_named(label) is Some {
        let i = choose|i: int| preset_at(label, i);
        lemma_preset_name(i);
    }
}

/// A new mixer is off, with all slots alike and in bounds, all weights at one,
/// and the target curve of each mode at its preset.
pub proof fn mixers_begin_neutral(mode: Mode, mood: Mood, s: int)
    requires
        0 <= s < 8,
    ensures
        ({
            let m = new_mixer();
            &&& !m.enabled && m.activate_target_curve
            &&& m.mood == Mood::Neutral && m.mode == Mode::Music
            &&& m.intensity == zero()
            &&& m.slot_params.len() == 8 && m.slot_params[s] == default_slot()
            &&& m.slot_params[s] == source_preset_of(0).1
            &&& m.mood_weight[mood.row()][s] == one() && m.balancer_mask[mood.row()][s] == one()
            &&& m.target_curve.len() == 4 && m.target_curve[mode.row()] == target_preset_of(mode)
            &&& slot_in_bounds(target_preset_of(mode)) && target_preset_of(mode).formula == 7
            &&& in_bounds(m)
            &&& m.last_factor == one() && m.last_target == one() && m.last_power_sum == zero()
        }),
{
}

// Bounds.

proof fn lemma_steps(bits: u32, m: int, e: nat)
    requires
        bits < 0x8000_0000,
        0x80_0000 <= m < 0x100_0000,
        bits as int == e * 0x80_0000 + m,
    ensures
        (Real32 { bits }).steps() == m * pow2(e),
{
    let k = bits as int;
    assert((Real32 { bits }).rank() == k);
    assert(k / 0x80_0000 == e + 1);
    assert(k % 0x80_0000 == m - 0x80_0000);
}

proof fn lemma_times(a: nat, n: nat, b: nat)
    requires
        a == n,
    ensures
        a * b == n * b,
{
}

/// The bounds of the controls have their values: those of the zoom 0.15 and 8,
/// that of the loudness 40 below full scale, those of a gain 60 below and 12
/// above it, and the longest ramp 5000 milliseconds. At first the loudness is 14
/// below full scale and the ramp 200 milliseconds.
pub proof fn bounds_have_their_values()
    ensures
        zero() == whole_number(0) && one() == whole_number(1) && two() == whole_number(2),
        (Real32 { bits: HALF_BITS }).steps() * 2 == pow2(149),
        ZOOM_MAX_BITS == whole_number(8).bits,
        -pow2(127) < 20 * (Real32 { bits: ZOOM_MIN_BITS }).steps() - 3 * pow2(149) < pow2(127),
        LUFS_MIN_BITS == 0x8000_0000 + whole_number(40).bits,
        LUFS_FIRST_BITS == 0x8000_0000 + whole_number(14).bits,
        GAIN_DB_MIN_BITS == 0x8000_0000 + whole_number(60).bits,
        GAIN_DB_MAX_BITS == whole_number(12).bits,
        SMOOTH_BITS == whole_number(200).bits,
        (Real32 { bits: SMOOTH_MAX_BITS }).steps() == 5000 * pow2(149),
{
    lemma2_to64();
    lemma_pow2_adds(11, 138);
    lemma_pow2_adds(26, 123);
    lemma_pow2_adds(4, 123);
    lemma_pow2_adds(24, 125);
    lemma_steps(SMOOTH_MAX_BITS, 0x9c_4000, 138);
    lemma_steps(ZOOM_MIN_BITS, 0x99_999a, 123);
    lemma_steps(HALF_BITS, 0x80_0000, 125);
    lemma_times(pow2(11), 2048, pow2(138));
    lemma_times(pow2(26), 0x400_0000, pow2(123));
    lemma_times(pow2(4), 16, pow2(123));
    lemma_times(pow2(24), 0x100_0000, pow2(125));
    vstd::arithmetic::power2::lemma_pow2_pos(123);
}

} // verus!
