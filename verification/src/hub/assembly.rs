//! A whole bundle put together: what all recorded sections put into it, in the
//! order Intro, Main, Outro.
use vstd::prelude::*;

use crate::asset::model_laws::lemma_pattern_clip;
use crate::asset::wlamodel::clip_path;
use crate::asset::wlamodel::enough_ids;
use crate::asset::wlamodel::identified;
use crate::asset::wlamodel::plans;
use crate::asset::wlamodel::section_patterns;
use crate::asset::wlamodel::Identified;
use crate::asset::wlamodel::SectionPlan;
use crate::asset::wlamodel::SectionSpec;
use crate::hub::bundle::plan_section;
use crate::hub::bundle::section_bundle;
use crate::hub::bundle::section_plan;
use crate::hub::bundle::section_spec;
use crate::hub::bundle::ClipPlanView;
use crate::hub::bundle::SectionBundle;
use crate::hub::bundle::SectionBundleView;
use crate::hub::takes::SectionTakes;
use crate::hub::takes::TakesView;
use crate::json::JsonTree;
use crate::navigator::model::SectionKind;
use crate::seqs::flat;
use crate::seqs::lemma_flat_take;

verus! {

/// The sound of a section: the source of each of its buffers, how many buffers
/// there are, and how many frames they have.
#[derive(Debug)]
pub struct SectionSound {
    pub armed: Vec<usize>,
    pub buffers: usize,
    pub len_frames: u64,
}

/// The contents of a [`SectionSound`].
pub struct SoundView {
    pub armed: Seq<usize>,
    pub buffers: usize,
    pub len_frames: u64,
}

impl View for SectionSound {
    type V = SoundView;

    open spec fn view(&self) -> SoundView {
        SoundView {
            armed: self.armed@,
            buffers: self.buffers,
            len_frames: self.len_frames,
        }
    }
}

/// The sound of the sections that have any.
#[derive(Debug)]
pub struct BundleSound {
    pub intro: Option<SectionSound>,
    pub main: Option<SectionSound>,
    pub outro: Option<SectionSound>,
}

impl BundleSound {
    /// The sound of a section.
    pub open spec fn of(self, kind: SectionKind) -> Option<SoundView> {
        let sound = match kind {
            SectionKind::Intro => self.intro,
            SectionKind::Main => self.main,
            SectionKind::Outro => self.outro,
        };
        match sound {
            Some(s) => Some(s@),
            None => None,
        }
    }

    fn get(&self, kind: SectionKind) -> (r: &Option<SectionSound>)
        ensures
            self.of(kind) == match *r {
                Some(s) => Some(s@),
                None => None,
            },
    {
        match kind {
            SectionKind::Intro => &self.intro,
            SectionKind::Main => &self.main,
            SectionKind::Outro => &self.outro,
        }
    }
}

/// What a section puts into a bundle, where it has both a take and sound.
pub open spec fn planned(
    kind: SectionKind,
    bank: Seq<char>,
    takes: TakesView,
    sound: BundleSound,
) -> Seq<SectionBundleView> {
    match (takes.get(kind), sound.of(kind)) {
        (Some(_), Some(s)) => seq![
            section_bundle(kind, bank, s.armed, s.buffers as nat, s.len_frames),
        ],
        _ => Seq::empty(),
    }
}

/// What the sections put into a bundle, in the order Intro, Main, Outro.
pub open spec fn bundle_of(
    bank: Seq<char>,
    takes: TakesView,
    sound: BundleSound,
) -> Seq<SectionBundleView> {
    planned(SectionKind::Intro, bank, takes, sound) + planned(
        SectionKind::Main,
        bank,
        takes,
        sound,
    ) + planned(SectionKind::Outro, bank, takes, sound)
}

/// The contents of sections of a bundle.
pub open spec fn bundle_views(s: Seq<SectionBundle>) -> Seq<SectionBundleView> {
    s.map_values(|b: SectionBundle| b@)
}

fn add_planned(
    out: &mut Vec<SectionBundle>,
    kind: SectionKind,
    bank: &str,
    takes: &SectionTakes,
    sound: &BundleSound,
)
    ensures
        bundle_views(final(out)@) == bundle_views(old(out)@) + planned(
            kind,
            bank@,
            takes@,
            *sound,
        ),
{
    let ghost before = out@;
    if let (Some(_), Some(s)) = (takes.get(kind), sound.get(kind)) {
        let b = plan_section(kind, bank, &s.armed, s.buffers, s.len_frames);
        let ghost v = b@;
        out.push(b);
        assert(bundle_views(out@) =~= bundle_views(before).push(v));
    }
    assert(bundle_views(out@) =~= bundle_views(before) + planned(kind, bank@, takes@, *sound));
}

/// What the recorded sections put into a bundle, in the order Intro, Main,
/// Outro. There has to be one at least.
pub fn plan_bundle(bank: &str, takes: &SectionTakes, sound: &BundleSound) -> (r: Result<
    Vec<SectionBundle>,
    String,
>)
    ensures
        match r {
            Ok(s) => s@.len() > 0 && bundle_views(s@) == bundle_of(bank@, takes@, *sound),
            Err(e) => bundle_of(bank@, takes@, *sound).len() == 0 && e@
                == "record at least one section before exporting"@,
        },
{
    let mut out: Vec<SectionBundle> = Vec::new();
    add_planned(&mut out, SectionKind::Intro, bank, takes, sound);
    add_planned(&mut out, SectionKind::Main, bank, takes, sound);
    add_planned(&mut out, SectionKind::Outro, bank, takes, sound);
    assert(bundle_views(out@) =~= bundle_of(bank@, takes@, *sound));
    if out.len() == 0 {
        Err("record at least one section before exporting".to_owned())
    } else {
        Ok(out)
    }
}

/// A clip of a bundle: the section it is of, its id and name, which buffer of
/// the section it holds, none for the sum of all, and how many frames it has.
#[derive(Debug)]
pub struct BundleClip {
    pub kind: SectionKind,
    pub id: String,
    pub name: String,
    pub buffer: Option<usize>,
    pub frames: u64,
}

/// The contents of a [`BundleClip`].
pub struct BundleClipView {
    pub kind: SectionKind,
    pub id: Seq<char>,
    pub name: Seq<char>,
    pub buffer: Option<usize>,
    pub frames: u64,
}

impl View for BundleClip {
    type V = BundleClipView;

    open spec fn view(&self) -> BundleClipView {
        BundleClipView {
            kind: self.kind,
            id: self.id@,
            name: self.name@,
            buffer: self.buffer,
            frames: self.frames,
        }
    }
}

/// The contents of clips.
pub open spec fn clip_views(s: Seq<BundleClip>) -> Seq<BundleClipView> {
    s.map_values(|c: BundleClip| c@)
}

/// The clips of a section.
pub open spec fn section_clips() -> spec_fn(SectionBundleView) -> Seq<BundleClipView> {
    |b: SectionBundleView|
        b.clips.map_values(
            |c: ClipPlanView|
                BundleClipView {
                    kind: b.kind,
                    id: c.id,
                    name: c.name,
                    buffer: c.buffer,
                    frames: b.len_frames,
                },
        )
}

fn add_clips(out: &mut Vec<BundleClip>, b: &SectionBundle)
    ensures
        clip_views(final(out)@) == clip_views(old(out)@) + section_clips()(b@),
{
    let ghost before = out@;
    let ghost all = section_clips()(b@);
    let mut i: usize = 0;
    assert(clip_views(out@) =~= clip_views(before) + all.take(0));
    while i < b.clips.len()
        invariant
            0 <= i <= b.clips@.len(),
            all == section_clips()(b@),
            clip_views(out@) =~= clip_views(before) + all.take(i as int),
        decreases b.clips@.len() - i,
    {
        let c = &b.clips[i];
        let clip = BundleClip {
            kind: b.kind,
            id: c.id.clone(),
            name: c.name.clone(),
            buffer: c.buffer,
            frames: b.len_frames,
        };
        let ghost v = clip@;
        let ghost now = out@;
        out.push(clip);
        assert(b@.clips[i as int] == c@);
        assert(all[i as int] == v);
        assert(clip_views(out@) =~= clip_views(now).push(v));
        assert(all.take(i + 1) =~= all.take(i as int).push(v));
        i += 1;
    }
    assert(all.take(i as int) =~= all);
}

/// The clips of a bundle, in the order in which the bank has them.
pub fn bundle_clips(sections: &Vec<SectionBundle>) -> (r: Vec<BundleClip>)
    ensures
        clip_views(r@) == flat(bundle_views(sections@), section_clips()),
{
    let mut out: Vec<BundleClip> = Vec::new();
    let ghost s = bundle_views(sections@);
    let mut i: usize = 0;
    assert(clip_views(out@) =~= flat(s.take(0), section_clips()));
    while i < sections.len()
        invariant
            0 <= i <= sections@.len(),
            s == bundle_views(sections@),
            clip_views(out@) == flat(s.take(i as int), section_clips()),
        decreases sections@.len() - i,
    {
        add_clips(&mut out, &sections[i]);
        proof {
            lemma_flat_take(s, section_clips(), i as int);
            assert(s[i as int] == sections@[i as int]@);
        }
        i += 1;
    }
    assert(s.take(i as int) =~= s);
    out
}

/// A section as the model has it, where it has a take.
pub open spec fn section_plans(bank: Seq<char>, takes: TakesView) -> spec_fn(
    SectionBundleView,
) -> Seq<SectionPlan> {
    |b: SectionBundleView|
        match takes.get(b.kind) {
            Some(t) => seq![section_plan(b, bank, t)],
            None => Seq::empty(),
        }
}

/// The sections of a bundle as the model has them.
pub fn bundle_specs<'a>(
    sections: &'a Vec<SectionBundle>,
    bank: &'a str,
    takes: &'a SectionTakes,
) -> (r: Vec<SectionSpec<'a>>)
    ensures
        plans(r@) == flat(bundle_views(sections@), section_plans(bank@, takes@)),
{
    let mut out: Vec<SectionSpec<'a>> = Vec::new();
    let ghost s = bundle_views(sections@);
    let ghost f = section_plans(bank@, takes@);
    let mut i: usize = 0;
    assert(plans(out@) =~= flat(s.take(0), f));
    while i < sections.len()
        invariant
            0 <= i <= sections@.len(),
            s == bundle_views(sections@),
            f == section_plans(bank@, takes@),
            plans(out@) == flat(s.take(i as int), f),
        decreases sections@.len() - i,
    {
        let ghost before = out@;
        let b = &sections[i];
        if let Some(t) = takes.get(b.kind) {
            let spec = section_spec(b, bank, t);
            let ghost v = spec@;
            out.push(spec);
            assert(plans(out@) =~= plans(before).push(v));
        }
        proof {
            lemma_flat_take(s, f, i as int);
            assert(s[i as int] == b@);
            assert(plans(out@) =~= plans(before) + f(b@));
        }
        i += 1;
    }
    assert(s.take(i as int) =~= s);
    out
}

// Laws.

/// The name of the clip that a pattern of a model plays.
pub open spec fn clip_played() -> spec_fn(JsonTree) -> Seq<char> {
    |t: JsonTree| t.field("data"@).field("audioContent"@).field("clipName"@).text_or_empty()
}

/// The names of clips.
pub open spec fn names_of(s: Seq<BundleClipView>) -> Seq<Seq<char>> {
    s.map_values(|c: BundleClipView| c.name)
}

/// The clips of a section are its mix and its layers, named for the bank.
pub open spec fn clips_named(b: SectionBundleView, bank: Seq<char>) -> bool {
    &&& b.clips.len() == 1 + b.layer_ids.len()
    &&& b.clips[0].name == clip_path(bank, b.mix)
    &&& forall|i: int|
        0 <= i < b.layer_ids.len() ==> (#[trigger] b.clips[1 + i]).name == clip_path(
            bank,
            b.layer_ids[i],
        )
}

/// Sections that were planned have a take, come in the order Intro, Main,
/// Outro, each at most once, and their clips are named for the bank.
pub proof fn planned_sections_are_in_order(bank: Seq<char>, takes: TakesView, sound: BundleSound)
    ensures
        ({
            let s = bundle_of(bank, takes, sound);
            &&& forall|i: int|
                0 <= i < s.len() ==> takes.get((#[trigger] s[i]).kind) is Some && clips_named(
                    s[i],
                    bank,
                )
            &&& forall|i: int, j: int|
                0 <= i < j < s.len() ==> (#[trigger] s[i]).kind.order() < (
                #[trigger] s[j]).kind.order()
        }),
{
}

/// The patterns of the model play the clips of the bank, one by one and in
/// order.
pub proof fn model_plays_the_clips_of_the_bank(
    s: Seq<SectionBundleView>,
    bank: Seq<char>,
    takes: TakesView,
    ids: Seq<Seq<Seq<char>>>,
)
    requires
        forall|i: int|
            0 <= i < s.len() ==> takes.get((#[trigger] s[i]).kind) is Some && clips_named(
                s[i],
                bank,
            ),
        enough_ids(flat(s, section_plans(bank, takes)), ids),
    ensures
        flat(identified(flat(s, section_plans(bank, takes)), ids), section_patterns()).map_values(
            clip_played(),
        ) == names_of(flat(s, section_clips())),
    decreases s.len(),
{
    let f = section_plans(bank, takes);
    let all = flat(s, f);
    let x = identified(all, ids);
    if s.len() == 0 {
        assert(flat(x, section_patterns()).map_values(clip_played()) =~= names_of(
            flat(s, section_clips()),
        ));
    } else {
        let t = s.drop_last();
        let b = s.last();
        assert(forall|i: int| 0 <= i < t.len() ==> t[i] == s[i]);
        assert(takes.get(s[s.len() - 1].kind) is Some);
        assert(f(b).len() == 1);
        assert(all == flat(t, f) + f(b));
        let fewer = ids.drop_last();
        assert(enough_ids(flat(t, f), fewer)) by {
            assert forall|i: int| 0 <= i < flat(t, f).len() implies (#[trigger] fewer[i]).len()
                == 1 + flat(t, f)[i].layer_ids.len() by {
                assert(fewer[i] == ids[i]);
                assert(all[i] == flat(t, f)[i]);
            }
        }
        model_plays_the_clips_of_the_bank(t, bank, takes, fewer);
        assert(x.drop_last() =~= identified(flat(t, f), fewer));
        assert(all.last() == f(b)[0]);
        lemma_section_plays(x.last(), b, bank);
        assert(flat(x, section_patterns()).map_values(clip_played()) =~= flat(
            x.drop_last(),
            section_patterns(),
        ).map_values(clip_played()) + section_patterns()(x.last()).map_values(clip_played()));
        assert(names_of(flat(s, section_clips())) =~= names_of(flat(t, section_clips()))
            + names_of(section_clips()(b)));
    }
}

proof fn lemma_section_plays(x: Identified, b: SectionBundleView, bank: Seq<char>)
    requires
        x.section.pattern_id == b.mix,
        x.section.bank_name == bank,
        x.section.layer_ids == b.layer_ids,
        clips_named(b, bank),
    ensures
        section_patterns()(x).map_values(clip_played()) == names_of(section_clips()(b)),
{
    let p = section_patterns()(x);
    let n = names_of(section_clips()(b));
    let s = x.section;
    assert forall|i: int| 0 <= i < p.len() implies clip_played()(#[trigger] p[i]) == n[i] by {
        if i == 0 {
            lemma_pattern_clip(
                s.pattern_id,
                s.bank_name,
                s.len_frames,
                crate::asset::wlamodel::loop_end(s),
                s.in_regions,
                s.out_regions,
                x.ids[0],
            );
        } else {
            lemma_pattern_clip(
                s.layer_ids[i - 1],
                s.bank_name,
                s.len_frames,
                crate::asset::wlamodel::loop_end(s),
                Seq::empty(),
                Seq::empty(),
                x.ids[1 + (i - 1)],
            );
            assert(b.clips[1 + (i - 1)].name == clip_path(bank, b.layer_ids[i - 1]));
        }
    }
    assert(p.map_values(clip_played()) =~= n);
}

} // verus!
