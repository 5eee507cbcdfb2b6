//! The model of an asset: a JSON document with a `content` array of one
//! `page`, one `module`, then one `pattern` per section mix and per layer
//! stem.
//!
//! Regions are written with their begin, end, fade and group. The sync point
//! is not: it is the end of an in-region and the begin of an out-region.
use vstd::prelude::*;

use crate::ids::hyphenated;
use crate::ids::random_marks;
use crate::ids::Uuid;
use crate::json::empty_object;
use crate::json::json_tree;
use crate::json::kept;
use crate::json::lemma_nested_more;
use crate::json::lemma_nested_with;
use crate::json::nested;
use crate::json::reads_as;
use crate::json::pretty_text;
use crate::json::real_tree;
use crate::json::trees;
use crate::json::whole_tree;
use crate::json::Json;
use crate::json::JsonTree;
use crate::navigator::model::Region;
use crate::navigator::model::SectionKind;
use crate::number::Real32;
use crate::number::HALF_BITS;
use crate::number::ONE_BITS;
use crate::number::ZERO_BITS;
use crate::seqs::first_index;
use crate::seqs::flat;
use crate::seqs::is_last;
use crate::seqs::last_index;
use crate::seqs::lemma_first_index;
use crate::seqs::lemma_first_index_found;
use crate::seqs::lemma_flat_take;
use crate::seqs::lemma_last_index;
use crate::seqs::lemma_picked_take;
use crate::seqs::picked;
use crate::text::join;
use crate::text::pad;
use crate::text::padded;
use crate::text::same;

verus! {

/// A section to write.
#[derive(Debug)]
pub struct SectionSpec<'a> {
    pub kind: SectionKind,
    /// Pattern id of the mixed clip (`i1`, `m1`, `o1`).
    pub pattern_id: &'a str,
    /// Length in sample frames.
    pub len_frames: u64,
    pub bank_name: &'a str,
    pub in_regions: &'a [Region],
    pub out_regions: &'a [Region],
    /// Ids of the layer stems; empty for none.
    pub layer_ids: Vec<String>,
}

/// The contents of a [`SectionSpec`].
#[verifier::ext_equal]
pub struct SectionPlan {
    pub kind: SectionKind,
    pub pattern_id: Seq<char>,
    pub len_frames: u64,
    pub bank_name: Seq<char>,
    pub in_regions: Seq<Region>,
    pub out_regions: Seq<Region>,
    pub layer_ids: Seq<Seq<char>>,
}

/// The contents of texts.
pub open spec fn texts(s: Seq<String>) -> Seq<Seq<char>> {
    s.map_values(|x: String| x@)
}

impl<'a> View for SectionSpec<'a> {
    type V = SectionPlan;

    open spec fn view(&self) -> SectionPlan {
        SectionPlan {
            kind: self.kind,
            pattern_id: self.pattern_id@,
            len_frames: self.len_frames,
            bank_name: self.bank_name@,
            in_regions: self.in_regions@,
            out_regions: self.out_regions@,
            layer_ids: texts(self.layer_ids@),
        }
    }
}

// The document that is written. Fields stand in alphabetical order.

pub open spec fn strip_tree() -> JsonTree {
    empty_object().with("pan"@, real_tree(Real32 { bits: HALF_BITS })).with(
        "volume"@,
        real_tree(Real32 { bits: ONE_BITS }),
    ).with("width"@, real_tree(Real32 { bits: ONE_BITS }))
}

pub open spec fn region_tree() -> spec_fn(Region) -> JsonTree {
    |r: Region|
        empty_object().with("begin"@, whole_tree(r.begin_frames)).with(
            "end"@,
            whole_tree(r.end_frames),
        ).with("fadePercentage"@, real_tree(r.fade_pct)).with(
            "fadeShape"@,
            real_tree(r.fade_shape),
        ).with("group"@, whole_tree(r.group as u64))
}

pub open spec fn loop_tree(begin: u64, end: u64) -> JsonTree {
    empty_object().with("begin"@, whole_tree(begin)).with("enabled"@, JsonTree::Bool(true)).with(
        "end"@,
        whole_tree(end),
    ).with("xfade"@, whole_tree(0)).with("xoffset"@, whole_tree(0))
}

/// The clip that stands for `clip` in the bank.
pub open spec fn clip_path(bank: Seq<char>, clip: Seq<char>) -> Seq<char> {
    "module_"@ + bank + "/"@ + clip
}

pub open spec fn audio_tree(bank: Seq<char>, clip: Seq<char>) -> JsonTree {
    empty_object().with("bankName"@, JsonTree::Text(bank)).with(
        "clipName"@,
        JsonTree::Text(clip_path(bank, clip)),
    ).with("readingMethod"@, JsonTree::Text("Streamed"@))
}

/// An item of the content: its data and its type.
pub open spec fn item_tree(data: JsonTree, kind: Seq<char>) -> JsonTree {
    empty_object().with("data"@, data).with("type"@, JsonTree::Text(kind))
}

/// `len` is how many frames the pattern has, `end` where its loop ends.
pub open spec fn pattern_data(
    id: Seq<char>,
    bank: Seq<char>,
    len: u64,
    end: u64,
    in_regions: Seq<Region>,
    out_regions: Seq<Region>,
    uuid: Seq<char>,
) -> JsonTree {
    empty_object().with("allowZones"@, JsonTree::Array(Seq::empty())).with(
        "audioContent"@,
        audio_tree(bank, id),
    ).with("channelStrip"@, strip_tree()).with("group"@, whole_tree(0)).with(
        "id"@,
        JsonTree::Text(id),
    ).with("inRegions"@, JsonTree::Array(in_regions.map_values(region_tree()))).with(
        "length"@,
        whole_tree(len),
    ).with("loop"@, loop_tree(0, end)).with(
        "outRegions"@,
        JsonTree::Array(out_regions.map_values(region_tree())),
    ).with("parameters"@, JsonTree::Array(Seq::empty())).with(
        "plugins"@,
        JsonTree::Array(Seq::empty()),
    ).with("uuid"@, JsonTree::Text(uuid))
}

pub open spec fn uuref_tree() -> spec_fn(Seq<char>) -> JsonTree {
    |uuid: Seq<char>| empty_object().with("uuref"@, JsonTree::Text(uuid))
}

pub open spec fn id_tree() -> spec_fn(Seq<char>) -> JsonTree {
    |id: Seq<char>| empty_object().with("id"@, JsonTree::Text(id))
}

/// Where the loop of a section's patterns ends: at its length for Main, which
/// loops, and at zero for the others.
pub open spec fn loop_end(s: SectionPlan) -> u64 {
    if s.kind == SectionKind::Main {
        s.len_frames
    } else {
        0
    }
}

/// A section with the identities of its patterns: that of the mix, then those
/// of the layers.
pub struct Identified {
    pub section: SectionPlan,
    pub ids: Seq<Seq<char>>,
}

/// The patterns of a section: the mix with its regions, then the layers.
pub open spec fn section_patterns() -> spec_fn(Identified) -> Seq<JsonTree> {
    |x: Identified|
        {
            let s = x.section;
            seq![
                item_tree(
                    pattern_data(
                        s.pattern_id,
                        s.bank_name,
                        s.len_frames,
                        loop_end(s),
                        s.in_regions,
                        s.out_regions,
                        x.ids[0],
                    ),
                    "pattern"@,
                ),
            ] + Seq::new(
                s.layer_ids.len(),
                |i: int|
                    item_tree(
                        pattern_data(
                            s.layer_ids[i],
                            s.bank_name,
                            s.len_frames,
                            loop_end(s),
                            Seq::empty(),
                            Seq::empty(),
                            x.ids[1 + i],
                        ),
                        "pattern"@,
                    ),
            )
        }
}

/// References to all patterns of a section.
pub open spec fn section_refs() -> spec_fn(Identified) -> Seq<JsonTree> {
    |x: Identified| x.ids.map_values(uuref_tree())
}

/// A reference to the mix of a section of `kind`.
pub open spec fn kind_refs(kind: SectionKind) -> spec_fn(Identified) -> Seq<JsonTree> {
    |x: Identified|
        if x.section.kind == kind {
            seq![uuref_tree()(x.ids[0])]
        } else {
            Seq::empty()
        }
}

/// Which layers belong to the mix of a section, where there are any.
pub open spec fn section_mapping() -> spec_fn(Identified) -> Seq<JsonTree> {
    |x: Identified|
        if x.section.layer_ids.len() > 0 {
            seq![
                empty_object().with(
                    "layers"@,
                    JsonTree::Array(x.section.layer_ids.map_values(id_tree())),
                ).with("patternId"@, JsonTree::Text(x.section.pattern_id)),
            ]
        } else {
            Seq::empty()
        }
}

pub open spec fn module_data(
    code: Seq<char>,
    module_uuid: Seq<char>,
    sections: Seq<Identified>,
) -> JsonTree {
    empty_object().with("channelStrip"@, strip_tree()).with("id"@, JsonTree::Text(code)).with(
        "introPatterns"@,
        JsonTree::Array(flat(sections, kind_refs(SectionKind::Intro))),
    ).with("layerMappings"@, JsonTree::Array(flat(sections, section_mapping()))).with(
        "layerPatterns"@,
        JsonTree::Array(flat(sections, section_refs())),
    ).with(
        "mainPatterns"@,
        JsonTree::Array(flat(sections, kind_refs(SectionKind::Main))),
    ).with(
        "outroPatterns"@,
        JsonTree::Array(flat(sections, kind_refs(SectionKind::Outro))),
    ).with("parameters"@, JsonTree::Array(Seq::empty())).with(
        "plugins"@,
        JsonTree::Array(Seq::empty()),
    ).with("scripts"@, JsonTree::Null).with("uuid"@, JsonTree::Text(module_uuid))
}

pub open spec fn page_data(
    code: Seq<char>,
    module_uuid: Seq<char>,
    page_uuid: Seq<char>,
) -> JsonTree {
    empty_object().with("channelStrip"@, strip_tree()).with("id"@, JsonTree::Text(code)).with(
        "modules"@,
        JsonTree::Array(seq![uuref_tree()(module_uuid)]),
    ).with("parameters"@, JsonTree::Array(Seq::empty())).with(
        "plugins"@,
        JsonTree::Array(Seq::empty()),
    ).with("scripts"@, JsonTree::Null).with("uuid"@, JsonTree::Text(page_uuid))
}

/// The content: page, module, patterns.
pub open spec fn content_items(
    code: Seq<char>,
    module_uuid: Seq<char>,
    page_uuid: Seq<char>,
    sections: Seq<Identified>,
) -> Seq<JsonTree> {
    seq![
        item_tree(page_data(code, module_uuid, page_uuid), "page"@),
        item_tree(module_data(code, module_uuid, sections), "module"@),
    ] + flat(sections, section_patterns())
}

/// The whole document.
pub open spec fn model_tree(
    code: Seq<char>,
    module_uuid: Seq<char>,
    page_uuid: Seq<char>,
    sections: Seq<Identified>,
    created_at: Seq<char>,
) -> JsonTree {
    empty_object().with(
        "content"@,
        JsonTree::Array(content_items(code, module_uuid, page_uuid, sections)),
    ).with(
        "document"@,
        empty_object().with("createdAt"@, JsonTree::Text(created_at)).with(
            "createdBy"@,
            JsonTree::Text("Gatherer Hub 1.0"@),
        ).with("version"@, whole_tree(1)),
    )
}

fn strip_value() -> (r: Json)
    ensures
        r@ == strip_tree(),
{
    let mut v = Json::object();
    v.put("pan", Json::real32(Real32 { bits: HALF_BITS }));
    v.put("volume", Json::real32(Real32 { bits: ONE_BITS }));
    v.put("width", Json::real32(Real32 { bits: ONE_BITS }));
    v
}

/// The fade of a region narrows back from what is written.
pub open spec fn region_kept(r: Region) -> bool {
    kept(r.fade_pct) && kept(r.fade_shape)
}

/// The fades of all regions narrow back from what is written.
pub open spec fn regions_kept(s: Seq<Region>) -> bool {
    forall|i: int| 0 <= i < s.len() ==> region_kept(#[trigger] s[i])
}

/// The fades of all regions of all sections narrow back from what is written.
pub open spec fn sections_kept(s: Seq<SectionPlan>) -> bool {
    forall|i: int|
        0 <= i < s.len() ==> regions_kept((#[trigger] s[i]).in_regions) && regions_kept(
            s[i].out_regions,
        )
}

fn region_value(r: &Region) -> (v: Json)
    ensures
        v@ == region_tree()(*r),
        region_kept(*r),
{
    let mut v = Json::object();
    v.put("begin", Json::whole(r.begin_frames));
    v.put("end", Json::whole(r.end_frames));
    v.put("fadePercentage", Json::real32(r.fade_pct));
    v.put("fadeShape", Json::real32(r.fade_shape));
    v.put("group", Json::whole(r.group as u64));
    v
}

fn regions_value(s: &[Region]) -> (v: Json)
    ensures
        v@ == JsonTree::Array(s@.map_values(region_tree())),
        regions_kept(s@),
{
    let mut out: Vec<Json> = Vec::new();
    let mut i: usize = 0;
    while i < s.len()
        invariant
            0 <= i <= s@.len(),
            trees(out@) =~= s@.take(i as int).map_values(region_tree()),
            regions_kept(s@.take(i as int)),
        decreases s@.len() - i,
    {
        let ghost before = out@;
        out.push(region_value(&s[i]));
        assert(trees(out@) =~= trees(before).push(region_tree()(s@[i as int])));
        assert(s@.take(i + 1) =~= s@.take(i as int).push(s@[i as int]));
        i += 1;
    }
    assert(s@.take(i as int) =~= s@);
    Json::array(out)
}

fn empty_array() -> (v: Json)
    ensures
        v@ == JsonTree::Array(Seq::empty()),
{
    let none: Vec<Json> = Vec::new();
    assert(trees(none@) =~= Seq::empty());
    Json::array(none)
}

fn uuref_value(uuid: &str) -> (v: Json)
    ensures
        v@ == uuref_tree()(uuid@),
{
    let mut v = Json::object();
    v.put("uuref", Json::text(uuid));
    v
}

fn id_value(id: &str) -> (v: Json)
    ensures
        v@ == id_tree()(id@),
{
    let mut v = Json::object();
    v.put("id", Json::text(id));
    v
}

fn item_value(data: Json, kind: &str) -> (v: Json)
    ensures
        v@ == item_tree(data@, kind@),
{
    let mut v = Json::object();
    v.put("data", data);
    v.put("type", Json::text(kind));
    v
}

/// The name of a clip in the bank `bank`.
pub fn clip_name(bank: &str, clip: &str) -> (r: String)
    ensures
        r@ == clip_path(bank@, clip@),
{
    let mut s = join("module_", bank);
    s.append("/");
    s.append(clip);
    s
}

fn pattern_entry(
    id: &str,
    bank_name: &str,
    len: u64,
    end: u64,
    in_regions: &[Region],
    out_regions: &[Region],
    uuid: &str,
) -> (v: Json)
    ensures
        v@ == item_tree(
            pattern_data(id@, bank_name@, len, end, in_regions@, out_regions@, uuid@),
            "pattern"@,
        ),
        regions_kept(in_regions@),
        regions_kept(out_regions@),
{
    let mut looped = Json::object();
    looped.put("begin", Json::whole(0));
    looped.put("enabled", Json::Bool(true));
    looped.put("end", Json::whole(end));
    looped.put("xfade", Json::whole(0));
    looped.put("xoffset", Json::whole(0));
    let clip = clip_name(bank_name, id);
    let mut audio = Json::object();
    audio.put("bankName", Json::text(bank_name));
    audio.put("clipName", Json::text(clip.as_str()));
    audio.put("readingMethod", Json::text("Streamed"));
    let mut data = Json::object();
    data.put("allowZones", empty_array());
    data.put("audioContent", audio);
    data.put("channelStrip", strip_value());
    data.put("group", Json::whole(0));
    data.put("id", Json::text(id));
    data.put("inRegions", regions_value(in_regions));
    data.put("length", Json::whole(len));
    data.put("loop", looped);
    data.put("outRegions", regions_value(out_regions));
    data.put("parameters", empty_array());
    data.put("plugins", empty_array());
    data.put("uuid", Json::text(uuid));
    item_value(data, "pattern")
}

/// The sections with the identities of their patterns.
pub open spec fn identified(sections: Seq<SectionPlan>, ids: Seq<Seq<Seq<char>>>) -> Seq<
    Identified,
> {
    Seq::new(sections.len(), |i: int| Identified { section: sections[i], ids: ids[i] })
}

/// The contents of sections.
pub open spec fn plans(s: Seq<SectionSpec<'_>>) -> Seq<SectionPlan> {
    s.map_values(|x: SectionSpec<'_>| x@)
}

/// The contents of lists of texts.
pub open spec fn text_lists(s: Seq<Vec<String>>) -> Seq<Seq<Seq<char>>> {
    s.map_values(|x: Vec<String>| texts(x@))
}

/// There is an identity for the mix and for each layer of every section.
pub open spec fn enough_ids(sections: Seq<SectionPlan>, ids: Seq<Seq<Seq<char>>>) -> bool {
    &&& ids.len() == sections.len()
    &&& forall|i: int|
        0 <= i < sections.len() ==> (#[trigger] ids[i]).len() == 1 + sections[i].layer_ids.len()
}

/// The patterns of one section, and its layer ids.
fn section_values(sec: &SectionSpec<'_>, ids: &Vec<String>) -> (r: (
    Vec<Json>,
    Vec<Json>,
    Vec<Json>,
))
    requires
        ids@.len() == 1 + sec.layer_ids@.len(),
    ensures
        ({
            let x = Identified { section: sec@, ids: texts(ids@) };
            &&& trees(r.0@) == section_patterns()(x)
            &&& trees(r.1@) == section_refs()(x)
            &&& trees(r.2@) == sec@.layer_ids.map_values(id_tree())
            &&& regions_kept(sec@.in_regions)
            &&& regions_kept(sec@.out_regions)
        }),
{
    let ghost x = Identified { section: sec@, ids: texts(ids@) };
    let end: u64 = if sec.kind == SectionKind::Main {
        sec.len_frames
    } else {
        0
    };
    let mut patterns: Vec<Json> = Vec::new();
    let mut refs: Vec<Json> = Vec::new();
    let mut layers: Vec<Json> = Vec::new();
    assert(x.ids[0] == ids@[0]@);
    patterns.push(
        pattern_entry(
            sec.pattern_id,
            sec.bank_name,
            sec.len_frames,
            end,
            sec.in_regions,
            sec.out_regions,
            ids[0].as_str(),
        ),
    );
    refs.push(uuref_value(ids[0].as_str()));
    let ghost all = section_patterns()(x);
    let ghost all_refs = section_refs()(x);
    let ghost all_layers = sec@.layer_ids.map_values(id_tree());
    assert(trees(patterns@) =~= all.take(1));
    assert(trees(refs@) =~= all_refs.take(1));
    assert(trees(layers@) =~= all_layers.take(0));
    let none: Vec<Region> = Vec::new();
    let mut i: usize = 0;
    while i < sec.layer_ids.len()
        invariant
            0 <= i <= sec.layer_ids@.len(),
            ids@.len() == 1 + sec.layer_ids@.len(),
            x == (Identified { section: sec@, ids: texts(ids@) }),
            end == loop_end(sec@),
            none@ == Seq::<Region>::empty(),
            all == section_patterns()(x),
            all_refs == section_refs()(x),
            all_layers == sec@.layer_ids.map_values(id_tree()),
            trees(patterns@) == all.take(1 + i),
            trees(refs@) == all_refs.take(1 + i),
            trees(layers@) == all_layers.take(i as int),
            regions_kept(sec@.in_regions),
            regions_kept(sec@.out_regions),
        decreases sec.layer_ids@.len() - i,
    {
        let lid = sec.layer_ids[i].as_str();
        let luuid = ids[1 + i].as_str();
        let ghost (p0, r0, l0) = (patterns@, refs@, layers@);
        proof {
            assert(x.ids[1 + i] == ids@[1 + i]@);
            assert(sec@.layer_ids[i as int] == sec.layer_ids@[i as int]@);
        }
        patterns.push(
            pattern_entry(
                lid,
                sec.bank_name,
                sec.len_frames,
                end,
                none.as_slice(),
                none.as_slice(),
                luuid,
            ),
        );
        refs.push(uuref_value(luuid));
        layers.push(id_value(lid));
        proof {
            assert(trees(patterns@) =~= trees(p0).push(all[1 + i]));
            assert(all.take(2 + i) =~= all.take(1 + i).push(all[1 + i]));
            assert(trees(refs@) =~= trees(r0).push(all_refs[1 + i]));
            assert(all_refs.take(2 + i) =~= all_refs.take(1 + i).push(all_refs[1 + i]));
            assert(trees(layers@) =~= trees(l0).push(all_layers[i as int]));
            assert(all_layers.take(i + 1) =~= all_layers.take(i as int).push(
                all_layers[i as int],
            ));
        }
        i += 1;
    }
    assert(all.take(1 + i) =~= all);
    assert(all_refs.take(1 + i) =~= all_refs);
    assert(all_layers.take(i as int) =~= all_layers);
    (patterns, refs, layers)
}

proof fn lemma_trees_append(a: Seq<Json>, b: Seq<Json>)
    ensures
        trees(a + b) == trees(a) + trees(b),
{
    assert(trees(a + b) =~= trees(a) + trees(b));
}

/// The document of an asset, given the identities of the patterns and the
/// time of its making.
pub fn document(
    production_code: &str,
    module_uuid: &str,
    page_uuid: &str,
    sections: &[SectionSpec<'_>],
    ids: &Vec<Vec<String>>,
    created_at: &str,
) -> (r: Json)
    requires
        enough_ids(plans(sections@), text_lists(ids@)),
    ensures
        r@ == model_tree(
            production_code@,
            module_uuid@,
            page_uuid@,
            identified(plans(sections@), text_lists(ids@)),
            created_at@,
        ),
        sections_kept(plans(sections@)),
{
    let ghost all = identified(plans(sections@), text_lists(ids@));
    let ghost (fp, fr, fm) = (section_patterns(), section_refs(), section_mapping());
    let ghost (fi, fn_, fo) = (
        kind_refs(SectionKind::Intro),
        kind_refs(SectionKind::Main),
        kind_refs(SectionKind::Outro),
    );
    let mut patterns: Vec<Json> = Vec::new();
    let mut refs: Vec<Json> = Vec::new();
    let mut mappings: Vec<Json> = Vec::new();
    let mut intros: Vec<Json> = Vec::new();
    let mut mains: Vec<Json> = Vec::new();
    let mut outros: Vec<Json> = Vec::new();
    let mut i: usize = 0;
    while i < sections.len()
        invariant
            0 <= i <= sections@.len(),
            enough_ids(plans(sections@), text_lists(ids@)),
            all == identified(plans(sections@), text_lists(ids@)),
            fp == section_patterns(),
            fr == section_refs(),
            fm == section_mapping(),
            fi == kind_refs(SectionKind::Intro),
            fn_ == kind_refs(SectionKind::Main),
            fo == kind_refs(SectionKind::Outro),
            trees(patterns@) =~= flat(all.take(i as int), fp),
            trees(refs@) =~= flat(all.take(i as int), fr),
            trees(mappings@) =~= flat(all.take(i as int), fm),
            trees(intros@) =~= flat(all.take(i as int), fi),
            trees(mains@) =~= flat(all.take(i as int), fn_),
            trees(outros@) =~= flat(all.take(i as int), fo),
            sections_kept(plans(sections@).take(i as int)),
        decreases sections@.len() - i,
    {
        let sec = &sections[i];
        let uuids = &ids[i];
        let ghost x = all[i as int];
        proof {
            assert(text_lists(ids@)[i as int].len() == 1 + plans(
                sections@,
            )[i as int].layer_ids.len());
            assert(plans(sections@)[i as int] == sec@);
            assert(text_lists(ids@)[i as int] == texts(uuids@));
            assert(x == (Identified { section: sec@, ids: texts(uuids@) }));
            lemma_flat_take(all, fp, i as int);
            lemma_flat_take(all, fr, i as int);
            lemma_flat_take(all, fm, i as int);
            lemma_flat_take(all, fi, i as int);
            lemma_flat_take(all, fn_, i as int);
            lemma_flat_take(all, fo, i as int);
        }
        let (mut more_patterns, mut more_refs, layers) = section_values(sec, uuids);
        proof {
            lemma_trees_append(patterns@, more_patterns@);
            lemma_trees_append(refs@, more_refs@);
        }
        patterns.append(&mut more_patterns);
        refs.append(&mut more_refs);
        let mix = uuref_value(uuids[0].as_str());
        assert(x.ids[0] == uuids@[0]@);
        let ghost (i0, m0, o0, l0) = (intros@, mains@, outros@, mappings@);
        match sec.kind {
            SectionKind::Intro => {
                intros.push(mix);
                assert(trees(intros@) =~= trees(i0) + fi(x));
            },
            SectionKind::Main => {
                mains.push(mix);
                assert(trees(mains@) =~= trees(m0) + fn_(x));
            },
            SectionKind::Outro => {
                outros.push(mix);
                assert(trees(outros@) =~= trees(o0) + fo(x));
            },
        }
        assert(trees(layers@).len() == layers@.len());
        if layers.len() > 0 {
            let mut mapping = Json::object();
            mapping.put("layers", Json::array(layers));
            mapping.put("patternId", Json::text(sec.pattern_id));
            assert(fm(x) =~= seq![mapping@]);
            mappings.push(mapping);
            assert(trees(mappings@) =~= trees(l0) + fm(x));
        }
        i += 1;
    }
    assert(all.take(i as int) =~= all);
    assert(plans(sections@).take(i as int) =~= plans(sections@));
    let mut module = Json::object();
    module.put("channelStrip", strip_value());
    module.put("id", Json::text(production_code));
    module.put("introPatterns", Json::array(intros));
    module.put("layerMappings", Json::array(mappings));
    module.put("layerPatterns", Json::array(refs));
    module.put("mainPatterns", Json::array(mains));
    module.put("outroPatterns", Json::array(outros));
    module.put("parameters", empty_array());
    module.put("plugins", empty_array());
    module.put("scripts", Json::Null);
    module.put("uuid", Json::text(module_uuid));
    assert(module@ == module_data(production_code@, module_uuid@, all));
    let mut modules: Vec<Json> = Vec::new();
    modules.push(uuref_value(module_uuid));
    assert(trees(modules@) =~= seq![uuref_tree()(module_uuid@)]);
    let mut page = Json::object();
    page.put("channelStrip", strip_value());
    page.put("id", Json::text(production_code));
    page.put("modules", Json::array(modules));
    page.put("parameters", empty_array());
    page.put("plugins", empty_array());
    page.put("scripts", Json::Null);
    page.put("uuid", Json::text(page_uuid));
    assert(page@ == page_data(production_code@, module_uuid@, page_uuid@));
    let mut content: Vec<Json> = Vec::new();
    content.push(item_value(page, "page"));
    content.push(item_value(module, "module"));
    proof {
        lemma_trees_append(content@, patterns@);
    }
    content.append(&mut patterns);
    assert(trees(content@) =~= content_items(
        production_code@,
        module_uuid@,
        page_uuid@,
        all,
    ));
    let mut stamp = Json::object();
    stamp.put("createdAt", Json::text(created_at));
    stamp.put("createdBy", Json::text("Gatherer Hub 1.0"));
    stamp.put("version", Json::whole(1));
    let mut doc = Json::object();
    doc.put("content", Json::array(content));
    doc.put("document", stamp);
    doc
}

// The time stamp.

/// `y` is a leap year.
pub open spec fn leap(y: int) -> bool {
    (y % 4 == 0 && y % 100 != 0) || y % 400 == 0
}

/// The days of a year.
pub open spec fn year_days(y: int) -> int {
    if leap(y) {
        366
    } else {
        365
    }
}

/// The days of a month, counted from 1.
pub open spec fn month_days(y: int, m: int) -> int {
    if m == 2 {
        if leap(y) {
            29
        } else {
            28
        }
    } else if m == 4 || m == 6 || m == 9 || m == 11 {
        30
    } else {
        31
    }
}

/// The days from the start of 1970 to the start of `y`.
pub open spec fn days_to_year(y: int) -> int
    decreases y,
{
    if y <= 1970 {
        0
    } else {
        days_to_year(y - 1) + year_days(y - 1)
    }
}

/// The days from the start of `y` to the start of its month `m`.
pub open spec fn days_to_month(y: int, m: int) -> int
    decreases m,
{
    if m <= 1 {
        0
    } else {
        days_to_month(y, m - 1) + month_days(y, m - 1)
    }
}

/// A point in time: year, month, day, hour, minute, second.
pub open spec fn is_date(p: (u64, u64, u64, u64, u64, u64)) -> bool {
    &&& p.0 >= 1970
    &&& 1 <= p.1 <= 12
    &&& 1 <= p.2 <= month_days(p.0 as int, p.1 as int)
    &&& p.3 < 24
    &&& p.4 < 60
    &&& p.5 < 60
}

/// The seconds from the start of 1970 to a point in time.
pub open spec fn seconds_to(p: (u64, u64, u64, u64, u64, u64)) -> int {
    let days = days_to_year(p.0 as int) + days_to_month(p.0 as int, p.1 as int) + p.2 - 1;
    ((days * 24 + p.3) * 60 + p.4) * 60 + p.5
}

fn is_leap(y: u64) -> (r: bool)
    ensures
        r == leap(y as int),
{
    (y % 4 == 0 && y % 100 != 0) || y % 400 == 0
}

fn days_in_month(y: u64, m: u64) -> (r: u64)
    ensures
        r == month_days(y as int, m as int),
{
    if m == 2 {
        if is_leap(y) {
            29
        } else {
            28
        }
    } else if m == 4 || m == 6 || m == 9 || m == 11 {
        30
    } else {
        31
    }
}

/// The twelve months make up the year.
pub proof fn lemma_months_make_year(y: int)
    ensures
        days_to_month(y, 13) == year_days(y),
{
    reveal_with_fuel(days_to_month, 14);
}

/// The date and time of day, in UTC, `secs` seconds after the start of 1970.
pub fn epoch_to_parts(secs: u64) -> (r: (u64, u64, u64, u64, u64, u64))
    ensures
        is_date(r),
        seconds_to(r) == secs,
{
    let s: u64 = secs % 60;
    let mins: u64 = secs / 60;
    let min: u64 = mins % 60;
    let hours: u64 = mins / 60;
    let h: u64 = hours % 24;
    let days: u64 = hours / 24;
    let mut y: u64 = 1970;
    let mut rem: u64 = days;
    loop
        invariant
            y >= 1970,
            y - 1970 + rem <= days,
            days <= u64::MAX / 86400,
            days == days_to_year(y as int) + rem,
        ensures
            rem < year_days(y as int),
        decreases rem,
    {
        let dy: u64 = if is_leap(y) {
            366
        } else {
            365
        };
        if rem < dy {
            break;
        }
        rem -= dy;
        y += 1;
    }
    let mut mo: u64 = 1;
    let ghost start = rem;
    proof {
        lemma_months_make_year(y as int);
    }
    loop
        invariant
            1 <= mo <= 12,
            start == days_to_month(y as int, mo as int) + rem,
            start < year_days(y as int),
            days_to_month(y as int, 13) == year_days(y as int),
        ensures
            rem < month_days(y as int, mo as int),
        decreases 13 - mo,
    {
        let md: u64 = days_in_month(y, mo);
        if rem < md {
            break;
        }
        assert(mo < 12) by {
            if mo == 12 {
                assert(days_to_month(y as int, 13) == days_to_month(y as int, 12) + month_days(
                    y as int,
                    12,
                ));
            }
        }
        rem -= md;
        mo += 1;
    }
    (y, mo, rem + 1, h, min, s)
}

/// The text of a point in time, as RFC 3339 has it, in UTC.
pub open spec fn date_text(p: (u64, u64, u64, u64, u64, u64)) -> Seq<char> {
    padded(p.0 as nat, 4) + "-"@ + padded(p.1 as nat, 2) + "-"@ + padded(p.2 as nat, 2) + "T"@
        + padded(p.3 as nat, 2) + ":"@ + padded(p.4 as nat, 2) + ":"@ + padded(p.5 as nat, 2)
        + "+00:00"@
}

/// The text of the time `secs` seconds after the start of 1970.
pub fn timestamp(secs: u64) -> (r: String)
    ensures
        exists|p: (u64, u64, u64, u64, u64, u64)|
            is_date(p) && seconds_to(p) == secs && r@ == #[trigger] date_text(p),
{
    let (y, mo, d, h, min, s) = epoch_to_parts(secs);
    let mut out = pad(y as u128, 4);
    out.append("-");
    out.append(pad(mo as u128, 2).as_str());
    out.append("-");
    out.append(pad(d as u128, 2).as_str());
    out.append("T");
    out.append(pad(h as u128, 2).as_str());
    out.append(":");
    out.append(pad(min as u128, 2).as_str());
    out.append(":");
    out.append(pad(s as u128, 2).as_str());
    out.append("+00:00");
    assert(out@ == date_text((y, mo, d, h, min, s)));
    out
}

/// `std::time::SystemTime::now` as seconds since the start of 1970, zero
/// before it. Nothing is said of the time.
#[verifier::external_body]
pub(crate) fn unix_secs() -> (r: u64) {
    std::time::SystemTime::now().duration_since(std::time::UNIX_EPOCH).map_or(
        0,
        |d| d.as_secs(),
    )
}

/// The current time as text.
fn chrono_now() -> (r: String)
    ensures
        exists|p: (u64, u64, u64, u64, u64, u64)| is_date(p) && r@ == #[trigger] date_text(p),
{
    timestamp(unix_secs())
}

/// `r` is the written form of some random identifier.
pub open spec fn random_text(r: Seq<char>) -> bool {
    exists|v: u128| random_marks(v) && r == #[trigger] hyphenated(v)
}

fn new_uuid() -> (r: String)
    ensures
        random_text(r@),
{
    let u = Uuid::new_v4();
    u.to_text()
}

/// Identities for the patterns of every section. They are drawn at random, so
/// that no two are the same is not said.
fn new_ids(sections: &[SectionSpec<'_>]) -> (r: Vec<Vec<String>>)
    ensures
        enough_ids(plans(sections@), text_lists(r@)),
        forall|i: int, j: int|
            0 <= i < sections@.len() && 0 <= j < (#[trigger] text_lists(r@)[i]).len()
                ==> random_text(#[trigger] text_lists(r@)[i][j]),
{
    let mut out: Vec<Vec<String>> = Vec::new();
    let mut i: usize = 0;
    while i < sections.len()
        invariant
            0 <= i <= sections@.len(),
            out@.len() == i,
            forall|k: int|
                0 <= k < i ==> (#[trigger] out@[k])@.len() == 1 + sections@[k].layer_ids@.len(),
            forall|k: int, j: int|
                0 <= k < i && 0 <= j < (#[trigger] out@[k])@.len() ==> random_text(
                    (#[trigger] out@[k]@[j])@,
                ),
        decreases sections@.len() - i,
    {
        let mut uuids: Vec<String> = Vec::new();
        uuids.push(new_uuid());
        let mut j: usize = 0;
        let n: usize = sections[i].layer_ids.len();
        while j < n
            invariant
                0 <= j <= n,
                uuids@.len() == 1 + j,
                forall|k: int| 0 <= k < uuids@.len() ==> random_text((#[trigger] uuids@[k])@),
            decreases n - j,
        {
            uuids.push(new_uuid());
            j += 1;
        }
        out.push(uuids);
        i += 1;
    }
    proof {
        let t = text_lists(out@);
        assert forall|k: int| 0 <= k < sections@.len() implies (#[trigger] t[k]).len() == 1
            + plans(sections@)[k].layer_ids.len() by {
            assert(t[k] == texts(out@[k]@));
        }
        assert forall|k: int, j: int|
            0 <= k < sections@.len() && 0 <= j < (#[trigger] t[k]).len() implies random_text(
            #[trigger] t[k][j],
        ) by {
            assert(t[k] == texts(out@[k]@));
            assert(random_text(out@[k]@[j]@));
        }
    }
    out
}

/// The text is the indented one of the document, and reads as it.
pub open spec fn written_as(text: Seq<char>, doc: JsonTree) -> bool {
    text == pretty_text(doc) && reads_as(text, doc)
}

proof fn lemma_strip_nested()
    ensures
        nested(strip_tree(), 1),
{
    let t0 = empty_object();
    let t1 = t0.with("pan"@, real_tree(Real32 { bits: HALF_BITS }));
    lemma_nested_with(t0, "pan"@, real_tree(Real32 { bits: HALF_BITS }), 1);
    let t2 = t1.with("volume"@, real_tree(Real32 { bits: ONE_BITS }));
    lemma_nested_with(t1, "volume"@, real_tree(Real32 { bits: ONE_BITS }), 1);
    lemma_nested_with(t2, "width"@, real_tree(Real32 { bits: ONE_BITS }), 1);
}

proof fn lemma_region_nested(r: Region)
    ensures
        nested(region_tree()(r), 1),
{
    let t0 = empty_object();
    let t1 = t0.with("begin"@, whole_tree(r.begin_frames));
    lemma_nested_with(t0, "begin"@, whole_tree(r.begin_frames), 1);
    let t2 = t1.with("end"@, whole_tree(r.end_frames));
    lemma_nested_with(t1, "end"@, whole_tree(r.end_frames), 1);
    let t3 = t2.with("fadePercentage"@, real_tree(r.fade_pct));
    lemma_nested_with(t2, "fadePercentage"@, real_tree(r.fade_pct), 1);
    let t4 = t3.with("fadeShape"@, real_tree(r.fade_shape));
    lemma_nested_with(t3, "fadeShape"@, real_tree(r.fade_shape), 1);
    lemma_nested_with(t4, "group"@, whole_tree(r.group as u64), 1);
}

proof fn lemma_loop_nested(begin: u64, end: u64)
    ensures
        nested(loop_tree(begin, end), 1),
{
    let t0 = empty_object();
    let t1 = t0.with("begin"@, whole_tree(begin));
    lemma_nested_with(t0, "begin"@, whole_tree(begin), 1);
    let t2 = t1.with("enabled"@, JsonTree::Bool(true));
    lemma_nested_with(t1, "enabled"@, JsonTree::Bool(true), 1);
    let t3 = t2.with("end"@, whole_tree(end));
    lemma_nested_with(t2, "end"@, whole_tree(end), 1);
    let t4 = t3.with("xfade"@, whole_tree(0));
    lemma_nested_with(t3, "xfade"@, whole_tree(0), 1);
    lemma_nested_with(t4, "xoffset"@, whole_tree(0), 1);
}

proof fn lemma_audio_nested(bank: Seq<char>, clip: Seq<char>)
    ensures
        nested(audio_tree(bank, clip), 1),
{
    let t0 = empty_object();
    let t1 = t0.with("bankName"@, JsonTree::Text(bank));
    lemma_nested_with(t0, "bankName"@, JsonTree::Text(bank), 1);
    let t2 = t1.with("clipName"@, JsonTree::Text(clip_path(bank, clip)));
    lemma_nested_with(t1, "clipName"@, JsonTree::Text(clip_path(bank, clip)), 1);
    lemma_nested_with(t2, "readingMethod"@, JsonTree::Text("Streamed"@), 1);
}

proof fn lemma_item_nested(data: JsonTree, kind: Seq<char>, n: nat)
    requires
        nested(data, n),
    ensures
        nested(item_tree(data, kind), n + 1),
{
    lemma_nested_with(empty_object(), "data"@, data, n + 1);
    lemma_nested_with(
        empty_object().with("data"@, data),
        "type"@,
        JsonTree::Text(kind),
        n + 1,
    );
}

proof fn lemma_regions_nested(s: Seq<Region>)
    ensures
        nested(JsonTree::Array(s.map_values(region_tree())), 2),
{
    let a = s.map_values(region_tree());
    assert forall|i: int| 0 <= i < a.len() implies nested(#[trigger] a[i], 1) by {
        lemma_region_nested(s[i]);
    }
}

proof fn lemma_pattern_nested(
    id: Seq<char>,
    bank: Seq<char>,
    len: u64,
    end: u64,
    in_regions: Seq<Region>,
    out_regions: Seq<Region>,
    uuid: Seq<char>,
)
    ensures
        nested(
            item_tree(
                pattern_data(id, bank, len, end, in_regions, out_regions, uuid),
                "pattern"@,
            ),
            5,
        ),
{
    let none = JsonTree::Array(Seq::empty());
    let ins = JsonTree::Array(in_regions.map_values(region_tree()));
    let outs = JsonTree::Array(out_regions.map_values(region_tree()));
    lemma_audio_nested(bank, id);
    lemma_nested_more(audio_tree(bank, id), 1, 3);
    lemma_strip_nested();
    lemma_nested_more(strip_tree(), 1, 3);
    lemma_loop_nested(0, end);
    lemma_nested_more(loop_tree(0, end), 1, 3);
    lemma_regions_nested(in_regions);
    lemma_nested_more(ins, 2, 3);
    lemma_regions_nested(out_regions);
    lemma_nested_more(outs, 2, 3);
    let t0 = empty_object();
    let t1 = t0.with("allowZones"@, none);
    lemma_nested_with(t0, "allowZones"@, none, 4);
    let t2 = t1.with("audioContent"@, audio_tree(bank, id));
    lemma_nested_with(t1, "audioContent"@, audio_tree(bank, id), 4);
    let t3 = t2.with("channelStrip"@, strip_tree());
    lemma_nested_with(t2, "channelStrip"@, strip_tree(), 4);
    let t4 = t3.with("group"@, whole_tree(0));
    lemma_nested_with(t3, "group"@, whole_tree(0), 4);
    let t5 = t4.with("id"@, JsonTree::Text(id));
    lemma_nested_with(t4, "id"@, JsonTree::Text(id), 4);
    let t6 = t5.with("inRegions"@, ins);
    lemma_nested_with(t5, "inRegions"@, ins, 4);
    let t7 = t6.with("length"@, whole_tree(len));
    lemma_nested_with(t6, "length"@, whole_tree(len), 4);
    let t8 = t7.with("loop"@, loop_tree(0, end));
    lemma_nested_with(t7, "loop"@, loop_tree(0, end), 4);
    let t9 = t8.with("outRegions"@, outs);
    lemma_nested_with(t8, "outRegions"@, outs, 4);
    let t10 = t9.with("parameters"@, none);
    lemma_nested_with(t9, "parameters"@, none, 4);
    let t11 = t10.with("plugins"@, none);
    lemma_nested_with(t10, "plugins"@, none, 4);
    lemma_nested_with(t11, "uuid"@, JsonTree::Text(uuid), 4);
    lemma_item_nested(
        pattern_data(id, bank, len, end, in_regions, out_regions, uuid),
        "pattern"@,
        4,
    );
}

/// Every element is nested at most `n` levels deep.
spec fn all_nested(s: Seq<JsonTree>, n: nat) -> bool {
    forall|i: int| 0 <= i < s.len() ==> nested(#[trigger] s[i], n)
}

proof fn lemma_flat_nested(s: Seq<Identified>, f: spec_fn(Identified) -> Seq<JsonTree>, n: nat)
    requires
        forall|i: int| 0 <= i < s.len() ==> all_nested(f(#[trigger] s[i]), n),
    ensures
        all_nested(flat(s, f), n),
    decreases s.len(),
{
    if s.len() > 0 {
        let t = s.drop_last();
        assert forall|i: int| 0 <= i < t.len() implies all_nested(f(#[trigger] t[i]), n) by {
            assert(all_nested(f(s[i]), n));
        }
        lemma_flat_nested(t, f, n);
        assert(all_nested(f(s[s.len() - 1]), n));
        let a = flat(t, f);
        let b = f(s.last());
        assert forall|i: int| 0 <= i < flat(s, f).len() implies nested(
            #[trigger] flat(s, f)[i],
            n,
        ) by {
            if i < a.len() {
                assert(nested(a[i], n));
            } else {
                assert(nested(b[i - a.len()], n));
            }
        }
    }
}

proof fn lemma_ref_nested(uuid: Seq<char>)
    ensures
        nested(uuref_tree()(uuid), 1),
        nested(id_tree()(uuid), 1),
{
    lemma_nested_with(empty_object(), "uuref"@, JsonTree::Text(uuid), 1);
    lemma_nested_with(empty_object(), "id"@, JsonTree::Text(uuid), 1);
}

proof fn lemma_mapping_nested(x: Identified)
    ensures
        all_nested(section_mapping()(x), 3),
{
    let layers = x.section.layer_ids.map_values(id_tree());
    assert forall|i: int| 0 <= i < layers.len() implies nested(#[trigger] layers[i], 1) by {
        lemma_ref_nested(x.section.layer_ids[i]);
    }
    let a = JsonTree::Array(layers);
    assert(nested(a, 2));
    let t0 = empty_object();
    lemma_nested_with(t0, "layers"@, a, 3);
    lemma_nested_with(
        t0.with("layers"@, a),
        "patternId"@,
        JsonTree::Text(x.section.pattern_id),
        3,
    );
}

proof fn lemma_lists_nested(s: Seq<Identified>)
    ensures
        nested(JsonTree::Array(flat(s, kind_refs(SectionKind::Intro))), 4),
        nested(JsonTree::Array(flat(s, kind_refs(SectionKind::Main))), 4),
        nested(JsonTree::Array(flat(s, kind_refs(SectionKind::Outro))), 4),
        nested(JsonTree::Array(flat(s, section_mapping())), 4),
        nested(JsonTree::Array(flat(s, section_refs())), 4),
{
    assert forall|kind: SectionKind| nested(
        JsonTree::Array(flat(s, #[trigger] kind_refs(kind))),
        4,
    ) by {
        let f = kind_refs(kind);
        assert forall|i: int| 0 <= i < s.len() implies all_nested(f(#[trigger] s[i]), 3) by {
            lemma_ref_nested(s[i].ids[0]);
            lemma_nested_more(uuref_tree()(s[i].ids[0]), 1, 3);
        }
        lemma_flat_nested(s, f, 3);
    }
    let f = section_mapping();
    assert forall|i: int| 0 <= i < s.len() implies all_nested(f(#[trigger] s[i]), 3) by {
        lemma_mapping_nested(s[i]);
    }
    lemma_flat_nested(s, f, 3);
    let g = section_refs();
    assert forall|i: int| 0 <= i < s.len() implies all_nested(g(#[trigger] s[i]), 3) by {
        let refs = g(s[i]);
        assert forall|k: int| 0 <= k < refs.len() implies nested(#[trigger] refs[k], 3) by {
            lemma_ref_nested(s[i].ids[k]);
            lemma_nested_more(refs[k], 1, 3);
        }
    }
    lemma_flat_nested(s, g, 3);
}

proof fn lemma_module_nested(code: Seq<char>, module_uuid: Seq<char>, s: Seq<Identified>)
    ensures
        nested(item_tree(module_data(code, module_uuid, s), "module"@), 6),
{
    let none = JsonTree::Array(Seq::empty());
    lemma_lists_nested(s);
    lemma_strip_nested();
    lemma_nested_more(strip_tree(), 1, 4);
    let intros = JsonTree::Array(flat(s, kind_refs(SectionKind::Intro)));
    let mains = JsonTree::Array(flat(s, kind_refs(SectionKind::Main)));
    let outros = JsonTree::Array(flat(s, kind_refs(SectionKind::Outro)));
    let mappings = JsonTree::Array(flat(s, section_mapping()));
    let refs = JsonTree::Array(flat(s, section_refs()));
    let t0 = empty_object();
    let t1 = t0.with("channelStrip"@, strip_tree());
    lemma_nested_with(t0, "channelStrip"@, strip_tree(), 5);
    let t2 = t1.with("id"@, JsonTree::Text(code));
    lemma_nested_with(t1, "id"@, JsonTree::Text(code), 5);
    let t3 = t2.with("introPatterns"@, intros);
    lemma_nested_with(t2, "introPatterns"@, intros, 5);
    let t4 = t3.with("layerMappings"@, mappings);
    lemma_nested_with(t3, "layerMappings"@, mappings, 5);
    let t5 = t4.with("layerPatterns"@, refs);
    lemma_nested_with(t4, "layerPatterns"@, refs, 5);
    let t6 = t5.with("mainPatterns"@, mains);
    lemma_nested_with(t5, "mainPatterns"@, mains, 5);
    let t7 = t6.with("outroPatterns"@, outros);
    lemma_nested_with(t6, "outroPatterns"@, outros, 5);
    let t8 = t7.with("parameters"@, none);
    lemma_nested_with(t7, "parameters"@, none, 5);
    let t9 = t8.with("plugins"@, none);
    lemma_nested_with(t8, "plugins"@, none, 5);
    let t10 = t9.with("scripts"@, JsonTree::Null);
    lemma_nested_with(t9, "scripts"@, JsonTree::Null, 5);
    lemma_nested_with(t10, "uuid"@, JsonTree::Text(module_uuid), 5);
    lemma_item_nested(module_data(code, module_uuid, s), "module"@, 5);
}

proof fn lemma_page_nested(code: Seq<char>, module_uuid: Seq<char>, page_uuid: Seq<char>)
    ensures
        nested(item_tree(page_data(code, module_uuid, page_uuid), "page"@), 4),
{
    let none = JsonTree::Array(Seq::empty());
    lemma_strip_nested();
    lemma_nested_more(strip_tree(), 1, 2);
    lemma_ref_nested(module_uuid);
    let modules = JsonTree::Array(seq![uuref_tree()(module_uuid)]);
    assert(nested(modules, 2));
    let t0 = empty_object();
    let t1 = t0.with("channelStrip"@, strip_tree());
    lemma_nested_with(t0, "channelStrip"@, strip_tree(), 3);
    let t2 = t1.with("id"@, JsonTree::Text(code));
    lemma_nested_with(t1, "id"@, JsonTree::Text(code), 3);
    let t3 = t2.with("modules"@, modules);
    lemma_nested_with(t2, "modules"@, modules, 3);
    let t4 = t3.with("parameters"@, none);
    lemma_nested_with(t3, "parameters"@, none, 3);
    let t5 = t4.with("plugins"@, none);
    lemma_nested_with(t4, "plugins"@, none, 3);
    let t6 = t5.with("scripts"@, JsonTree::Null);
    lemma_nested_with(t5, "scripts"@, JsonTree::Null, 3);
    lemma_nested_with(t6, "uuid"@, JsonTree::Text(page_uuid), 3);
    lemma_item_nested(page_data(code, module_uuid, page_uuid), "page"@, 3);
}

proof fn lemma_section_nested(x: Identified)
    ensures
        all_nested(section_patterns()(x), 6),
{
    let all = section_patterns()(x);
    let s = x.section;
    assert forall|i: int| 0 <= i < all.len() implies nested(#[trigger] all[i], 6) by {
        if i == 0 {
            lemma_pattern_nested(
                s.pattern_id,
                s.bank_name,
                s.len_frames,
                loop_end(s),
                s.in_regions,
                s.out_regions,
                x.ids[0],
            );
        } else {
            lemma_pattern_nested(
                s.layer_ids[i - 1],
                s.bank_name,
                s.len_frames,
                loop_end(s),
                Seq::empty(),
                Seq::empty(),
                x.ids[i],
            );
        }
        lemma_nested_more(all[i], 5, 6);
    }
}

proof fn lemma_model_nested(
    code: Seq<char>,
    module_uuid: Seq<char>,
    page_uuid: Seq<char>,
    s: Seq<Identified>,
    created_at: Seq<char>,
)
    ensures
        nested(model_tree(code, module_uuid, page_uuid, s, created_at), 127),
{
    let items = content_items(code, module_uuid, page_uuid, s);
    let rest = flat(s, section_patterns());
    assert forall|i: int| 0 <= i < s.len() implies all_nested(
        section_patterns()(#[trigger] s[i]),
        6,
    ) by {
        lemma_section_nested(s[i]);
    }
    lemma_flat_nested(s, section_patterns(), 6);
    lemma_page_nested(code, module_uuid, page_uuid);
    lemma_nested_more(items[0], 4, 6);
    lemma_module_nested(code, module_uuid, s);
    assert forall|i: int| 0 <= i < items.len() implies nested(#[trigger] items[i], 6) by {
        if i >= 2 {
            assert(items[i] == rest[i - 2]);
        }
    }
    let content = JsonTree::Array(items);
    assert(nested(content, 7));
    let t0 = empty_object();
    let d1 = t0.with("createdAt"@, JsonTree::Text(created_at));
    lemma_nested_with(t0, "createdAt"@, JsonTree::Text(created_at), 1);
    let d2 = d1.with("createdBy"@, JsonTree::Text("Gatherer Hub 1.0"@));
    lemma_nested_with(d1, "createdBy"@, JsonTree::Text("Gatherer Hub 1.0"@), 1);
    let stamp = d2.with("version"@, whole_tree(1));
    lemma_nested_with(d2, "version"@, whole_tree(1), 1);
    lemma_nested_more(stamp, 1, 7);
    let t1 = t0.with("content"@, content);
    lemma_nested_with(t0, "content"@, content, 8);
    lemma_nested_with(t1, "document"@, stamp, 8);
    lemma_nested_more(model_tree(code, module_uuid, page_uuid, s, created_at), 8, 127);
}

/// The text of the document of an asset, with new identities for its patterns
/// and the current time. `sections` stand in the order Intro, Main, Outro.
pub fn to_json(
    production_code: &str,
    module_uuid: &str,
    page_uuid: &str,
    sections: &[SectionSpec<'_>],
    _sample_rate: u32,
) -> (r: String)
    ensures
        exists|ids: Seq<Seq<Seq<char>>>, p: (u64, u64, u64, u64, u64, u64)|
            {
                &&& enough_ids(plans(sections@), ids)
                &&& forall|i: int, j: int|
                    0 <= i < sections@.len() && 0 <= j < (#[trigger] ids[i]).len()
                        ==> random_text(#[trigger] ids[i][j])
                &&& is_date(p)
                &&& written_as(
                    r@,
                    #[trigger] model_tree(
                        production_code@,
                        module_uuid@,
                        page_uuid@,
                        identified(plans(sections@), ids),
                        date_text(p),
                    ),
                )
            },
        sections_kept(plans(sections@)),
{
    let ids = new_ids(sections);
    let now = chrono_now();
    let ghost p = choose|p: (u64, u64, u64, u64, u64, u64)|
        is_date(p) && now@ == #[trigger] date_text(p);
    let doc = document(
        production_code,
        module_uuid,
        page_uuid,
        sections,
        &ids,
        now.as_str(),
    );
    let r = doc.pretty();
    proof {
        let t = text_lists(ids@);
        assert(enough_ids(plans(sections@), t));
        let all = identified(plans(sections@), t);
        lemma_model_nested(production_code@, module_uuid@, page_uuid@, all, date_text(p));
        assert(written_as(
            r@,
            model_tree(production_code@, module_uuid@, page_uuid@, all, date_text(p)),
        ));
    }
    r
}

// Reading.

/// A section that was read: its mix pattern, regions, and layers.
#[derive(Debug)]
pub struct ParsedSection {
    pub kind: SectionKind,
    pub pattern_id: String,
    pub len_frames: u64,
    pub in_regions: Vec<Region>,
    pub out_regions: Vec<Region>,
    pub layer_ids: Vec<String>,
}

/// The contents of a [`ParsedSection`].
#[verifier::ext_equal]
pub struct SectionFound {
    pub kind: SectionKind,
    pub pattern_id: Seq<char>,
    pub len_frames: u64,
    pub in_regions: Seq<Region>,
    pub out_regions: Seq<Region>,
    pub layer_ids: Seq<Seq<char>>,
}

impl View for ParsedSection {
    type V = SectionFound;

    open spec fn view(&self) -> SectionFound {
        SectionFound {
            kind: self.kind,
            pattern_id: self.pattern_id@,
            len_frames: self.len_frames,
            in_regions: self.in_regions@,
            out_regions: self.out_regions@,
            layer_ids: texts(self.layer_ids@),
        }
    }
}

/// What a document says: the identities of its module and page, and its
/// sections.
#[verifier::ext_equal]
pub struct ModelFound {
    pub module_uuid: Seq<char>,
    pub page_uuid: Seq<char>,
    pub sections: Seq<SectionFound>,
}

/// The item is of type `kind`.
pub open spec fn typed(kind: Seq<char>) -> spec_fn(JsonTree) -> bool {
    |c: JsonTree| c.field("type"@) == JsonTree::Text(kind)
}

/// The region that a tree describes, in sync at its end.
pub open spec fn in_region_of() -> spec_fn(JsonTree) -> Region {
    |r: JsonTree|
        Region {
            begin_frames: r.field("begin"@).whole_or_zero(),
            end_frames: r.field("end"@).whole_or_zero(),
            sync_frames: r.field("end"@).whole_or_zero(),
            fade_pct: r.field("fadePercentage"@).real_or(Real32 { bits: ZERO_BITS }),
            fade_shape: r.field("fadeShape"@).real_or(Real32 { bits: HALF_BITS }),
            group: (r.field("group"@).whole_or_zero() % 0x1_0000_0000) as u32,
        }
}

/// The region that a tree describes, in sync at its begin.
pub open spec fn out_region_of() -> spec_fn(JsonTree) -> Region {
    |r: JsonTree|
        Region { sync_frames: r.field("begin"@).whole_or_zero(), ..in_region_of()(r) }
}

/// A pattern of a document.
#[verifier::ext_equal]
pub struct PatternFound {
    pub uuid: Seq<char>,
    pub id: Seq<char>,
    pub len_frames: u64,
    pub in_regions: Seq<Region>,
    pub out_regions: Seq<Region>,
}

/// How many frames a pattern has by its data: up to the end of its loop, or
/// what it says itself where it has none.
pub open spec fn pattern_length(d: JsonTree) -> u64 {
    let end = d.field("loop"@).field("end"@).whole_or_zero();
    if end != 0 {
        end
    } else {
        d.field("length"@).whole_or_zero()
    }
}

/// The pattern that an item describes, where it is one.
pub open spec fn pattern_of() -> spec_fn(JsonTree) -> Option<PatternFound> {
    |c: JsonTree|
        if typed("pattern"@)(c) {
            let d = c.field("data"@);
            Some(
                PatternFound {
                    uuid: d.field("uuid"@).text_or_empty(),
                    id: d.field("id"@).text_or_empty(),
                    len_frames: pattern_length(d),
                    in_regions: d.field("inRegions"@).items().map_values(in_region_of()),
                    out_regions: d.field("outRegions"@).items().map_values(out_region_of()),
                },
            )
        } else {
            None
        }
}

pub open spec fn text_in(key: Seq<char>) -> spec_fn(JsonTree) -> Option<Seq<char>> {
    |t: JsonTree| t.field(key).text()
}

/// The pattern id and the layers that an entry of the layer mappings names.
pub open spec fn mapping_of() -> spec_fn(JsonTree) -> Option<(Seq<char>, Seq<Seq<char>>)> {
    |t: JsonTree|
        match t.field("patternId"@).text() {
            Some(id) => Some((id, picked(t.field("layers"@).items(), text_in("id"@)))),
            None => None,
        }
}

pub open spec fn pattern_named(uuid: Seq<char>) -> spec_fn(PatternFound) -> bool {
    |p: PatternFound| p.uuid == uuid
}

pub open spec fn mapping_named(id: Seq<char>) -> spec_fn((Seq<char>, Seq<Seq<char>>)) -> bool {
    |m: (Seq<char>, Seq<Seq<char>>)| m.0 == id
}

/// The layers of the first mapping for the pattern `id`; none without one.
pub open spec fn layers_of(
    mappings: Seq<(Seq<char>, Seq<Seq<char>>)>,
    id: Seq<char>,
) -> Seq<Seq<char>> {
    match first_index(mappings, mapping_named(id)) {
        Some(i) => mappings[i].1,
        None => Seq::empty(),
    }
}

/// The section of `kind` whose mix is the pattern of an identity; none where
/// there is no such pattern. Of several with one identity the last counts.
pub open spec fn section_of(
    kind: SectionKind,
    patterns: Seq<PatternFound>,
    mappings: Seq<(Seq<char>, Seq<Seq<char>>)>,
) -> spec_fn(Seq<char>) -> Option<SectionFound> {
    |uuid: Seq<char>|
        match last_index(patterns, pattern_named(uuid)) {
            Some(i) => {
                let p = patterns[i];
                Some(
                    SectionFound {
                        kind,
                        pattern_id: p.id,
                        len_frames: p.len_frames,
                        in_regions: p.in_regions,
                        out_regions: p.out_regions,
                        layer_ids: layers_of(mappings, p.id),
                    },
                )
            },
            None => None,
        }
}

/// The sections that a module names, Intro first, then Main, then Outro.
pub open spec fn module_sections(items: Seq<JsonTree>, module: JsonTree) -> Seq<SectionFound> {
    let patterns = picked(items, pattern_of());
    let mappings = picked(module.field("layerMappings"@).items(), mapping_of());
    let intros = picked(module.field("introPatterns"@).items(), text_in("uuref"@));
    let mains = picked(module.field("mainPatterns"@).items(), text_in("uuref"@));
    let outros = picked(module.field("outroPatterns"@).items(), text_in("uuref"@));
    picked(intros, section_of(SectionKind::Intro, patterns, mappings)) + picked(
        mains,
        section_of(SectionKind::Main, patterns, mappings),
    ) + picked(outros, section_of(SectionKind::Outro, patterns, mappings))
}

/// What a document says, or what is wrong with it.
pub open spec fn model_of(doc: JsonTree) -> Result<ModelFound, Seq<char>> {
    let items = doc.field("content"@).items();
    if !(doc.field("content"@) is Array) {
        Err("missing content"@)
    } else {
        match first_index(items, typed("module"@)) {
            Some(i) => {
                let module = items[i].field("data"@);
                if !(module is Object) {
                    Err("missing module"@)
                } else if !module.has("uuid"@) {
                    Err("missing module uuid"@)
                } else {
                    Ok(
                        ModelFound {
                            module_uuid: module.field("uuid"@).text_or_empty(),
                            page_uuid: match first_index(items, typed("page"@)) {
                                Some(p) => items[p].field("data"@).field("uuid"@).text_or_empty(),
                                None => Seq::empty(),
                            },
                            sections: module_sections(items, module),
                        },
                    )
                }
            },
            None => Err("missing module"@),
        }
    }
}

fn is_typed(item: &Json, kind: &str) -> (r: bool)
    ensures
        r == typed(kind@)(item@),
{
    match item.text_field("type") {
        Some(t) => same(t, kind),
        None => false,
    }
}

/// The first item of type `kind`.
fn find_typed<'a>(items: &'a Vec<Json>, kind: &str) -> (r: Option<&'a Json>)
    ensures
        match first_index(trees(items@), typed(kind@)) {
            Some(i) => r matches Some(x) && 0 <= i < items@.len() && x@ == trees(items@)[i],
            None => r is None,
        },
{
    let ghost f = typed(kind@);
    let ghost s = trees(items@);
    let mut i: usize = 0;
    while i < items.len()
        invariant
            0 <= i <= items@.len(),
            f == typed(kind@),
            s == trees(items@),
            forall|j: int| 0 <= j < i ==> !f(#[trigger] s[j]),
        decreases items@.len() - i,
    {
        assert(s[i as int] == items@[i as int]@);
        if is_typed(&items[i], kind) {
            proof {
                lemma_first_index(s, f, i as int);
            }
            return Some(&items[i]);
        }
        i += 1;
    }
    proof {
        lemma_first_index_found(s, f);
    }
    None
}

fn text_or_empty(v: &Json, key: &str) -> (r: String)
    ensures
        r@ == v@.field(key@).text_or_empty(),
{
    match v.text_field(key) {
        Some(s) => s.to_owned(),
        None => {
            let e = String::new();
            assert(e@ =~= Seq::empty());
            e
        },
    }
}

/// The texts in the field `inner` of the elements of the array field `key`.
fn texts_in(v: &Json, key: &str, inner: &str) -> (r: Vec<String>)
    ensures
        texts(r@) == picked(v@.field(key@).items(), text_in(inner@)),
{
    let mut out: Vec<String> = Vec::new();
    let ghost f = text_in(inner@);
    if let Some(items) = v.array_field(key) {
        let ghost s = trees(items@);
        let mut i: usize = 0;
        while i < items.len()
            invariant
                0 <= i <= items@.len(),
                f == text_in(inner@),
                s == trees(items@),
                texts(out@) =~= picked(s.take(i as int), f),
            decreases items@.len() - i,
        {
            proof {
                lemma_picked_take(s, f, i as int);
                assert(s[i as int] == items@[i as int]@);
            }
            if let Some(t) = items[i].text_field(inner) {
                let ghost before = out@;
                out.push(t.to_owned());
                assert(texts(out@) =~= texts(before).push(t@));
            }
            i += 1;
        }
        assert(s.take(i as int) =~= s);
    } else {
        assert(texts(out@) =~= Seq::empty());
    }
    out
}

fn read_region(v: &Json, inward: bool) -> (r: Region)
    ensures
        r == if inward {
            in_region_of()(v@)
        } else {
            out_region_of()(v@)
        },
{
    let begin: u64 = v.whole_field("begin");
    let end: u64 = v.whole_field("end");
    let group: u64 = v.whole_field("group");
    Region {
        begin_frames: begin,
        end_frames: end,
        sync_frames: if inward {
            end
        } else {
            begin
        },
        fade_pct: v.real_field("fadePercentage", Real32 { bits: ZERO_BITS }),
        fade_shape: v.real_field("fadeShape", Real32 { bits: HALF_BITS }),
        group: (group % 0x1_0000_0000) as u32,
    }
}

fn read_regions(v: &Json, key: &str, inward: bool) -> (r: Vec<Region>)
    ensures
        r@ == v@.field(key@).items().map_values(
            if inward {
                in_region_of()
            } else {
                out_region_of()
            },
        ),
{
    let mut out: Vec<Region> = Vec::new();
    let ghost f = if inward {
        in_region_of()
    } else {
        out_region_of()
    };
    if let Some(items) = v.array_field(key) {
        let ghost s = trees(items@);
        let mut i: usize = 0;
        while i < items.len()
            invariant
                0 <= i <= items@.len(),
                f == if inward {
                    in_region_of()
                } else {
                    out_region_of()
                },
                s == trees(items@),
                out@ =~= s.take(i as int).map_values(f),
            decreases items@.len() - i,
        {
            assert(s[i as int] == items@[i as int]@);
            out.push(read_region(&items[i], inward));
            i += 1;
        }
        assert(s.take(i as int) =~= s);
    } else {
        assert(out@ =~= v@.field(key@).items().map_values(f));
    }
    out
}

/// A pattern that was read.
struct FoundPattern {
    uuid: String,
    id: String,
    len_frames: u64,
    in_regions: Vec<Region>,
    out_regions: Vec<Region>,
}

impl View for FoundPattern {
    type V = PatternFound;

    closed spec fn view(&self) -> PatternFound {
        PatternFound {
            uuid: self.uuid@,
            id: self.id@,
            len_frames: self.len_frames,
            in_regions: self.in_regions@,
            out_regions: self.out_regions@,
        }
    }
}

spec fn found_views(s: Seq<FoundPattern>) -> Seq<PatternFound> {
    s.map_values(|p: FoundPattern| p@)
}

fn read_patterns(items: &Vec<Json>) -> (r: Vec<FoundPattern>)
    ensures
        found_views(r@) == picked(trees(items@), pattern_of()),
{
    let mut out: Vec<FoundPattern> = Vec::new();
    let ghost s = trees(items@);
    let ghost f = pattern_of();
    let mut i: usize = 0;
    while i < items.len()
        invariant
            0 <= i <= items@.len(),
            f == pattern_of(),
            s == trees(items@),
            found_views(out@) =~= picked(s.take(i as int), f),
        decreases items@.len() - i,
    {
        let item = &items[i];
        proof {
            lemma_picked_take(s, f, i as int);
            assert(s[i as int] == item@);
        }
        if is_typed(item, "pattern") {
            let ghost d = item@.field("data"@);
            let data = match item.get("data") {
                Some(x) => x,
                None => &Json::Null,
            };
            assert(data@ == d);
            let looped = match data.get("loop") {
                Some(x) => x,
                None => &Json::Null,
            };
            let end: u64 = looped.whole_field("end");
            let p = FoundPattern {
                uuid: text_or_empty(data, "uuid"),
                id: text_or_empty(data, "id"),
                len_frames: if end != 0 {
                    end
                } else {
                    data.whole_field("length")
                },
                in_regions: read_regions(data, "inRegions", true),
                out_regions: read_regions(data, "outRegions", false),
            };
            assert(p@ == f(item@)->0);
            let ghost v = p@;
            let ghost before = out@;
            out.push(p);
            assert(found_views(out@) =~= found_views(before).push(v));
        }
        i += 1;
    }
    assert(s.take(i as int) =~= s);
    out
}

spec fn mapping_views(s: Seq<(String, Vec<String>)>) -> Seq<(Seq<char>, Seq<Seq<char>>)> {
    s.map_values(|m: (String, Vec<String>)| (m.0@, texts(m.1@)))
}

fn read_mappings(module: &Json) -> (r: Vec<(String, Vec<String>)>)
    ensures
        mapping_views(r@) == picked(module@.field("layerMappings"@).items(), mapping_of()),
{
    let mut out: Vec<(String, Vec<String>)> = Vec::new();
    let ghost f = mapping_of();
    if let Some(items) = module.array_field("layerMappings") {
        let ghost s = trees(items@);
        let mut i: usize = 0;
        while i < items.len()
            invariant
                0 <= i <= items@.len(),
                f == mapping_of(),
                s == trees(items@),
                mapping_views(out@) =~= picked(s.take(i as int), f),
            decreases items@.len() - i,
        {
            proof {
                lemma_picked_take(s, f, i as int);
                assert(s[i as int] == items@[i as int]@);
            }
            if let Some(id) = items[i].text_field("patternId") {
                let layers = texts_in(&items[i], "layers", "id");
                let ghost v = (id@, texts(layers@));
                let ghost before = out@;
                out.push((id.to_owned(), layers));
                assert(mapping_views(out@) =~= mapping_views(before).push(v));
            }
            i += 1;
        }
        assert(s.take(i as int) =~= s);
    } else {
        assert(mapping_views(out@) =~= Seq::empty());
    }
    out
}

/// A copy of texts.
pub(crate) fn clone_texts(v: &Vec<String>) -> (r: Vec<String>)
    ensures
        texts(r@) == texts(v@),
{
    let r = v.clone();
    assert(texts(r@) =~= texts(v@));
    r
}

/// The layers of the first mapping for `id`.
fn find_layers(mappings: &Vec<(String, Vec<String>)>, id: &str) -> (r: Vec<String>)
    ensures
        texts(r@) == layers_of(mapping_views(mappings@), id@),
{
    let ghost s = mapping_views(mappings@);
    let ghost f = mapping_named(id@);
    let mut i: usize = 0;
    while i < mappings.len()
        invariant
            0 <= i <= mappings@.len(),
            s == mapping_views(mappings@),
            f == mapping_named(id@),
            forall|j: int| 0 <= j < i ==> !f(#[trigger] s[j]),
        decreases mappings@.len() - i,
    {
        assert(s[i as int] == (mappings@[i as int].0@, texts(mappings@[i as int].1@)));
        if same(mappings[i].0.as_str(), id) {
            proof {
                lemma_first_index(s, f, i as int);
            }
            return clone_texts(&mappings[i].1);
        }
        i += 1;
    }
    proof {
        lemma_first_index_found(s, f);
    }
    let none: Vec<String> = Vec::new();
    assert(texts(none@) =~= Seq::empty());
    none
}

spec fn section_views(s: Seq<ParsedSection>) -> Seq<SectionFound> {
    s.map_values(|x: ParsedSection| x@)
}

fn find_pattern(patterns: &Vec<FoundPattern>, uuid: &str) -> (r: Option<usize>)
    ensures
        match r {
            Some(i) => i < patterns@.len() && last_index(
                found_views(patterns@),
                pattern_named(uuid@),
            ) == Some(i as int),
            None => last_index(found_views(patterns@), pattern_named(uuid@)) is None,
        },
{
    let ghost s = found_views(patterns@);
    let ghost f = pattern_named(uuid@);
    let mut i: usize = patterns.len();
    while i > 0
        invariant
            0 <= i <= patterns@.len(),
            s == found_views(patterns@),
            f == pattern_named(uuid@),
            forall|j: int| i <= j < s.len() ==> !f(#[trigger] s[j]),
        decreases i,
    {
        i -= 1;
        assert(s[i as int] == patterns@[i as int]@);
        if same(patterns[i].uuid.as_str(), uuid) {
            proof {
                lemma_last_index(s, f, i as int);
            }
            return Some(i);
        }
    }
    proof {
        if let Some(k) = last_index(s, f) {
            assert(is_last(s, f, k));
        }
    }
    None
}

/// Append the sections of `kind` that `uuids` name.
fn add_sections(
    out: &mut Vec<ParsedSection>,
    kind: SectionKind,
    uuids: &Vec<String>,
    patterns: &Vec<FoundPattern>,
    mappings: &Vec<(String, Vec<String>)>,
)
    ensures
        section_views(final(out)@) == section_views(old(out)@) + picked(
            texts(uuids@),
            section_of(kind, found_views(patterns@), mapping_views(mappings@)),
        ),
{
    let ghost start = section_views(out@);
    let ghost s = texts(uuids@);
    let ghost f = section_of(kind, found_views(patterns@), mapping_views(mappings@));
    let mut i: usize = 0;
    while i < uuids.len()
        invariant
            0 <= i <= uuids@.len(),
            s == texts(uuids@),
            f == section_of(kind, found_views(patterns@), mapping_views(mappings@)),
            section_views(out@) =~= start + picked(s.take(i as int), f),
        decreases uuids@.len() - i,
    {
        proof {
            lemma_picked_take(s, f, i as int);
            assert(s[i as int] == uuids@[i as int]@);
        }
        if let Some(k) = find_pattern(patterns, uuids[i].as_str()) {
            let p = &patterns[k];
            assert(found_views(patterns@)[k as int] == p@);
            let sec = ParsedSection {
                kind,
                pattern_id: p.id.clone(),
                len_frames: p.len_frames,
                in_regions: p.in_regions.clone(),
                out_regions: p.out_regions.clone(),
                layer_ids: find_layers(mappings, p.id.as_str()),
            };
            assert(sec.in_regions@ =~= p.in_regions@);
            assert(sec.out_regions@ =~= p.out_regions@);
            assert(sec@ == f(s[i as int])->0);
            let ghost v = sec@;
            let ghost before = out@;
            out.push(sec);
            assert(section_views(out@) =~= section_views(before).push(v));
        }
        i += 1;
    }
    assert(s.take(i as int) =~= s);
}

/// What was read is what the document says.
pub open spec fn found(r: (String, String, Vec<ParsedSection>)) -> ModelFound {
    ModelFound {
        module_uuid: r.0@,
        page_uuid: r.1@,
        sections: r.2@.map_values(|x: ParsedSection| x@),
    }
}

/// What a document says: the identities of its module and of its page, and
/// its sections.
pub fn read_document(doc: &Json) -> (r: Result<(String, String, Vec<ParsedSection>), String>)
    ensures
        match r {
            Ok(m) => model_of(doc@) == Ok::<ModelFound, Seq<char>>(found(m)),
            Err(e) => model_of(doc@) == Err::<ModelFound, Seq<char>>(e@),
        },
{
    let items = match doc.array_field("content") {
        Some(items) => items,
        None => return Err("missing content".to_owned()),
    };
    let module = match find_typed(items, "module") {
        Some(item) => match item.get("data") {
            Some(m) => m,
            None => return Err("missing module".to_owned()),
        },
        None => return Err("missing module".to_owned()),
    };
    if !module.is_object() {
        return Err("missing module".to_owned());
    }
    if module.get("uuid").is_none() {
        return Err("missing module uuid".to_owned());
    }
    let module_uuid = text_or_empty(module, "uuid");
    let page_uuid = match find_typed(items, "page") {
        Some(item) => match item.get("data") {
            Some(d) => text_or_empty(d, "uuid"),
            None => String::new(),
        },
        None => String::new(),
    };
    let mappings = read_mappings(module);
    let intros = texts_in(module, "introPatterns", "uuref");
    let mains = texts_in(module, "mainPatterns", "uuref");
    let outros = texts_in(module, "outroPatterns", "uuref");
    let patterns = read_patterns(items);
    let mut sections: Vec<ParsedSection> = Vec::new();
    assert(section_views(sections@) =~= Seq::empty());
    add_sections(&mut sections, SectionKind::Intro, &intros, &patterns, &mappings);
    add_sections(&mut sections, SectionKind::Main, &mains, &patterns, &mappings);
    add_sections(&mut sections, SectionKind::Outro, &outros, &patterns, &mappings);
    let r = (module_uuid, page_uuid, sections);
    proof {
        assert(section_views(r.2@) =~= module_sections(trees(items@), module@));
        assert(found(r).sections =~= section_views(r.2@));
        if first_index(trees(items@), typed("page"@)) is None || r.1@.len() == 0 {
            assert(r.1@ =~= Seq::empty());
        }
    }
    Ok(r)
}

/// Read the text of a document.
pub fn parse(text: &str) -> (r: Result<(String, String, Vec<ParsedSection>), String>)
    ensures
        match json_tree(text@) {
            Ok(doc) => match r {
                Ok(m) => model_of(doc) == Ok::<ModelFound, Seq<char>>(found(m)),
                Err(e) => model_of(doc) == Err::<ModelFound, Seq<char>>(e@),
            },
            Err(why) => r matches Err(e) && e@ == why,
        },
{
    match Json::parse(text) {
        Ok(doc) => read_document(&doc),
        Err(e) => Err(e),
    }
}

} // verus!
