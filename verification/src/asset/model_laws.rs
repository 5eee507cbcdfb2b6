//! What reading gives back of a model that was written.
use vstd::prelude::*;

use crate::asset::wlamodel::audio_tree;
use crate::asset::wlamodel::clip_path;
use crate::asset::wlamodel::content_items;
use crate::asset::wlamodel::id_tree;
use crate::asset::wlamodel::in_region_of;
use crate::asset::wlamodel::item_tree;
use crate::asset::wlamodel::kind_refs;
use crate::asset::wlamodel::layers_of;
use crate::asset::wlamodel::loop_end;
use crate::asset::wlamodel::loop_tree;
use crate::asset::wlamodel::mapping_named;
use crate::asset::wlamodel::mapping_of;
use crate::asset::wlamodel::model_of;
use crate::asset::wlamodel::model_tree;
use crate::asset::wlamodel::module_data;
use crate::asset::wlamodel::module_sections;
use crate::asset::wlamodel::out_region_of;
use crate::asset::wlamodel::page_data;
use crate::asset::wlamodel::pattern_data;
use crate::asset::wlamodel::pattern_named;
use crate::asset::wlamodel::pattern_of;
use crate::asset::wlamodel::region_tree;
use crate::asset::wlamodel::section_mapping;
use crate::asset::wlamodel::region_kept;
use crate::asset::wlamodel::regions_kept;
use crate::asset::wlamodel::section_of;
use crate::asset::wlamodel::section_patterns;
use crate::asset::wlamodel::section_refs;
use crate::asset::wlamodel::strip_tree;
use crate::asset::wlamodel::text_in;
use crate::asset::wlamodel::typed;
use crate::asset::wlamodel::uuref_tree;
use crate::asset::wlamodel::written_as;
use crate::asset::wlamodel::Identified;
use crate::asset::wlamodel::ModelFound;
use crate::asset::wlamodel::PatternFound;
use crate::asset::wlamodel::SectionFound;
use crate::asset::wlamodel::SectionPlan;
use crate::json::json_tree;
use crate::json::empty_object;
use crate::json::narrowed;
use crate::json::whole_tree;
use crate::json::widened;
use crate::json::JsonNumber;
use crate::json::JsonTree;
use crate::navigator::model::Region;
use crate::navigator::model::SectionKind;
use crate::number::Real32;
use crate::number::HALF_BITS;
use crate::number::ZERO_BITS;
use crate::seqs::first_index;
use crate::seqs::flat;
use crate::seqs::is_first;
use crate::seqs::lemma_first_index;
use crate::seqs::lemma_first_index_found;
use crate::seqs::lemma_flat_contains;
use crate::seqs::lemma_only_match;
use crate::seqs::lemma_picked_all;
use crate::seqs::lemma_picked_append;
use crate::seqs::lemma_picked_flat;
use crate::seqs::lemma_picked_one;
use crate::seqs::picked;

verus! {

broadcast use {crate::json::lemma_with_field, crate::json::lemma_with_object};

/// What a 32-bit value is read back as: the value that its written number
/// narrows to, or `other` where it is not finite and so not written.
pub open spec fn real_again(x: Real32, other: Real32) -> Real32 {
    if x.finite() {
        narrowed(JsonNumber::Real(widened(x.bits)))
    } else {
        other
    }
}

/// What an in-region is read back as: in sync at its end.
pub open spec fn in_region_again() -> spec_fn(Region) -> Region {
    |r: Region|
        Region {
            sync_frames: r.end_frames,
            fade_pct: real_again(r.fade_pct, Real32 { bits: ZERO_BITS }),
            fade_shape: real_again(r.fade_shape, Real32 { bits: HALF_BITS }),
            ..r
        }
}

/// What an out-region is read back as: in sync at its begin.
pub open spec fn out_region_again() -> spec_fn(Region) -> Region {
    |r: Region| Region { sync_frames: r.begin_frames, ..in_region_again()(r) }
}

/// What a section is read back as.
pub open spec fn section_again(s: SectionPlan) -> SectionFound {
    SectionFound {
        kind: s.kind,
        pattern_id: s.pattern_id,
        len_frames: s.len_frames,
        in_regions: s.in_regions.map_values(in_region_again()),
        out_regions: s.out_regions.map_values(out_region_again()),
        layer_ids: s.layer_ids,
    }
}

/// The sections of `kind` as they are read back.
pub open spec fn kind_again(kind: SectionKind) -> spec_fn(Identified) -> Seq<SectionFound> {
    |x: Identified|
        if x.section.kind == kind {
            seq![section_again(x.section)]
        } else {
            Seq::empty()
        }
}

/// Every section has an identity for its mix and for each layer, and no two
/// patterns share one.
pub open spec fn distinct_ids(s: Seq<Identified>) -> bool {
    &&& forall|i: int| 0 <= i < s.len() ==> (#[trigger] s[i]).ids.len() == 1 + s[i].section.layer_ids.len()
    &&& forall|i: int, j: int, k: int, l: int|
        0 <= i < s.len() && 0 <= j < s.len() && 0 <= k < s[i].ids.len() && 0 <= l < s[j].ids.len()
            && #[trigger] s[i].ids[k] == #[trigger] s[j].ids[l] ==> i == j && k == l
}

/// No two sections have the same pattern id.
pub open spec fn distinct_patterns(s: Seq<Identified>) -> bool {
    forall|i: int, j: int|
        0 <= i < s.len() && 0 <= j < s.len() && (#[trigger] s[i]).section.pattern_id == (
        #[trigger] s[j]).section.pattern_id ==> i == j
}

pub proof fn lemma_keys()
    ensures
        "data"@ != "type"@,
        "content"@ != "document"@,
        "page"@ != "module"@,
        "page"@ != "pattern"@,
        "module"@ != "pattern"@,
        "layers"@ != "patternId"@,
{
    reveal_strlit("data");
    reveal_strlit("type");
    reveal_strlit("content");
    reveal_strlit("document");
    reveal_strlit("page");
    reveal_strlit("module");
    reveal_strlit("pattern");
    reveal_strlit("layers");
    reveal_strlit("patternId");
    assert("data"@.len() == 4);
    assert("type"@.len() == 4);
    assert("content"@.len() == 7);
    assert("document"@.len() == 8);
    assert("page"@.len() == 4);
    assert("module"@.len() == 6);
    assert("pattern"@.len() == 7);
    assert("layers"@.len() == 6);
    assert("patternId"@.len() == 9);
    assert("data"@[0] != "type"@[0]);
    assert("data"@[0] != "page"@[0]);
    assert("type"@[0] != "page"@[0]);
    assert("content"@[0] != "pattern"@[0]);
    assert("module"@[0] != "layers"@[0]);
}

pub proof fn lemma_item(data: JsonTree, kind: Seq<char>)
    ensures
        item_tree(data, kind).field("data"@) == data,
        item_tree(data, kind).field("type"@) == JsonTree::Text(kind),
{
    lemma_keys();
}

proof fn lemma_region(r: Region)
    ensures
        in_region_of()(region_tree()(r)) == in_region_again()(r),
        out_region_of()(region_tree()(r)) == out_region_again()(r),
{
    reveal_strlit("begin");
    reveal_strlit("end");
    reveal_strlit("fadePercentage");
    reveal_strlit("fadeShape");
    reveal_strlit("group");
    assert("begin"@.len() == 5);
    assert("end"@.len() == 3);
    assert("fadePercentage"@.len() == 14);
    assert("fadeShape"@.len() == 9);
    assert("group"@.len() == 5);
    assert("begin"@[0] != "group"@[0]);
}

pub proof fn lemma_pattern_fields(
    id: Seq<char>,
    bank: Seq<char>,
    len: u64,
    end: u64,
    ins: Seq<Region>,
    outs: Seq<Region>,
    uuid: Seq<char>,
)
    ensures
        ({
            let d = pattern_data(id, bank, len, end, ins, outs, uuid);
            &&& d.field("uuid"@) == JsonTree::Text(uuid)
            &&& d.field("id"@) == JsonTree::Text(id)
            &&& d.field("loop"@).field("end"@) == whole_tree(end)
            &&& d.field("length"@) == whole_tree(len)
            &&& d.field("loop"@) == loop_tree(0, end)
            &&& d.field("audioContent"@) == audio_tree(bank, id)
            &&& d.field("inRegions"@) == JsonTree::Array(ins.map_values(region_tree()))
            &&& d.field("outRegions"@) == JsonTree::Array(outs.map_values(region_tree()))
        }),
{
    reveal_strlit("allowZones");
    reveal_strlit("audioContent");
    reveal_strlit("channelStrip");
    reveal_strlit("group");
    reveal_strlit("id");
    reveal_strlit("inRegions");
    reveal_strlit("length");
    reveal_strlit("loop");
    reveal_strlit("outRegions");
    reveal_strlit("parameters");
    reveal_strlit("plugins");
    reveal_strlit("uuid");
    reveal_strlit("begin");
    reveal_strlit("enabled");
    reveal_strlit("end");
    reveal_strlit("xfade");
    reveal_strlit("xoffset");
    assert("allowZones"@.len() == 10);
    assert("audioContent"@.len() == 12);
    assert("channelStrip"@.len() == 12);
    assert("group"@.len() == 5);
    assert("id"@.len() == 2);
    assert("inRegions"@.len() == 9);
    assert("length"@.len() == 6);
    assert("loop"@.len() == 4);
    assert("outRegions"@.len() == 10);
    assert("parameters"@.len() == 10);
    assert("plugins"@.len() == 7);
    assert("uuid"@.len() == 4);
    assert("begin"@.len() == 5);
    assert("enabled"@.len() == 7);
    assert("end"@.len() == 3);
    assert("xfade"@.len() == 5);
    assert("xoffset"@.len() == 7);
    assert("allowZones"@[0] != "outRegions"@[0]);
    assert("allowZones"@[0] != "parameters"@[0]);
    assert("audioContent"@[0] != "channelStrip"@[0]);
    assert("group"@[0] != "begin"@[0]);
    assert("group"@[0] != "xfade"@[0]);
    assert("loop"@[0] != "uuid"@[0]);
    assert("outRegions"@[0] != "parameters"@[0]);
    assert("plugins"@[0] != "enabled"@[0]);
    assert("plugins"@[0] != "xoffset"@[0]);
    assert("begin"@[0] != "xfade"@[0]);
    assert("enabled"@[0] != "xoffset"@[0]);
}

/// The clip that a pattern plays.
pub proof fn lemma_pattern_clip(
    id: Seq<char>,
    bank: Seq<char>,
    len: u64,
    end: u64,
    ins: Seq<Region>,
    outs: Seq<Region>,
    uuid: Seq<char>,
)
    ensures
        item_tree(pattern_data(id, bank, len, end, ins, outs, uuid), "pattern"@).field(
            "data"@,
        ).field("audioContent"@).field("clipName"@) == JsonTree::Text(clip_path(bank, id)),
{
    let d = pattern_data(id, bank, len, end, ins, outs, uuid);
    lemma_item(d, "pattern"@);
    lemma_pattern_fields(id, bank, len, end, ins, outs, uuid);
    reveal_strlit("bankName");
    reveal_strlit("clipName");
    reveal_strlit("readingMethod");
    assert("bankName"@[0] != "clipName"@[0]);
    assert("clipName"@.len() == 8);
    assert("readingMethod"@.len() == 13);
}

/// The patterns of a section as they are found.
pub open spec fn found_patterns() -> spec_fn(Identified) -> Seq<PatternFound> {
    |x: Identified|
        Seq::new(
            1 + x.section.layer_ids.len(),
            |k: int|
                PatternFound {
                    uuid: x.ids[k],
                    id: if k == 0 {
                        x.section.pattern_id
                    } else {
                        x.section.layer_ids[k - 1]
                    },
                    len_frames: x.section.len_frames,
                    in_regions: if k == 0 {
                        x.section.in_regions.map_values(in_region_again())
                    } else {
                        Seq::empty()
                    },
                    out_regions: if k == 0 {
                        x.section.out_regions.map_values(out_region_again())
                    } else {
                        Seq::empty()
                    },
                },
        )
}

proof fn lemma_pattern_of(
    id: Seq<char>,
    bank: Seq<char>,
    len: u64,
    end: u64,
    ins: Seq<Region>,
    outs: Seq<Region>,
    uuid: Seq<char>,
)
    requires
        end == len || end == 0,
    ensures
        pattern_of()(item_tree(pattern_data(id, bank, len, end, ins, outs, uuid), "pattern"@)) == Some(
            PatternFound {
                uuid,
                id,
                len_frames: len,
                in_regions: ins.map_values(in_region_again()),
                out_regions: outs.map_values(out_region_again()),
            },
        ),
{
    let d = pattern_data(id, bank, len, end, ins, outs, uuid);
    lemma_item(d, "pattern"@);
    lemma_pattern_fields(id, bank, len, end, ins, outs, uuid);
    assert forall|i: int| 0 <= i < ins.len() implies in_region_of()(
        region_tree()(#[trigger] ins[i]),
    ) == in_region_again()(ins[i]) by {
        lemma_region(ins[i]);
    }
    assert forall|i: int| 0 <= i < outs.len() implies out_region_of()(
        region_tree()(#[trigger] outs[i]),
    ) == out_region_again()(outs[i]) by {
        lemma_region(outs[i]);
    }
    assert(ins.map_values(region_tree()).map_values(in_region_of()) =~= ins.map_values(
        in_region_again(),
    ));
    assert(outs.map_values(region_tree()).map_values(out_region_of()) =~= outs.map_values(
        out_region_again(),
    ));
}

proof fn lemma_found_patterns(x: Identified)
    ensures
        picked(section_patterns()(x), pattern_of()) == found_patterns()(x),
{
    let s = x.section;
    let p = section_patterns()(x);
    let f = pattern_of();
    let want = found_patterns()(x);
    assert forall|k: int| 0 <= k < p.len() implies f(#[trigger] p[k]) == Some(want[k]) by {
        if k == 0 {
            lemma_pattern_of(
                s.pattern_id,
                s.bank_name,
                s.len_frames,
                loop_end(s),
                s.in_regions,
                s.out_regions,
                x.ids[0],
            );
        } else {
            lemma_pattern_of(
                s.layer_ids[k - 1],
                s.bank_name,
                s.len_frames,
                loop_end(s),
                Seq::empty(),
                Seq::empty(),
                x.ids[1 + (k - 1)],
            );
            assert(Seq::<Region>::empty().map_values(in_region_again()) =~= Seq::empty());
            assert(Seq::<Region>::empty().map_values(out_region_again()) =~= Seq::empty());
        }
    }
    lemma_picked_all(p, f);
    assert(p.map_values(|t: JsonTree| f(t)->0) =~= want);
}

/// The identity of the mix of a section of `kind`.
pub open spec fn kind_ids(kind: SectionKind) -> spec_fn(Identified) -> Seq<Seq<char>> {
    |x: Identified|
        if x.section.kind == kind {
            seq![x.ids[0]]
        } else {
            Seq::empty()
        }
}

proof fn lemma_kind_ids(s: Seq<Identified>, kind: SectionKind)
    ensures
        picked(flat(s, kind_refs(kind)), text_in("uuref"@)) == flat(s, kind_ids(kind)),
{
    let f = kind_refs(kind);
    let g = text_in("uuref"@);
    assert forall|i: int| 0 <= i < s.len() implies picked(f(#[trigger] s[i]), g) == kind_ids(kind)(
        s[i],
    ) by {
        let x = s[i];
        if x.section.kind == kind {
            lemma_picked_one(uuref_tree()(x.ids[0]), g);
            assert(g(uuref_tree()(x.ids[0])) == Some(x.ids[0]));
        } else {
            assert(picked(Seq::<JsonTree>::empty(), g) =~= Seq::empty());
        }
    }
    lemma_picked_flat(s, f, g, kind_ids(kind));
}

/// The layer mapping of a section as it is found.
pub open spec fn found_mapping() -> spec_fn(Identified) -> Seq<(Seq<char>, Seq<Seq<char>>)> {
    |x: Identified|
        if x.section.layer_ids.len() > 0 {
            seq![(x.section.pattern_id, x.section.layer_ids)]
        } else {
            Seq::empty()
        }
}

proof fn lemma_found_mappings(s: Seq<Identified>)
    ensures
        picked(flat(s, section_mapping()), mapping_of()) == flat(s, found_mapping()),
{
    let f = section_mapping();
    let g = mapping_of();
    lemma_keys();
    assert forall|i: int| 0 <= i < s.len() implies picked(f(#[trigger] s[i]), g)
        == found_mapping()(s[i]) by {
        let x = s[i];
        let ids = x.section.layer_ids;
        if ids.len() > 0 {
            let t = f(x)[0];
            assert(f(x) =~= seq![t]);
            lemma_picked_one(t, g);
            let h = text_in("id"@);
            let items = ids.map_values(id_tree());
            assert(t.field("layers"@) == JsonTree::Array(items));
            assert forall|k: int| 0 <= k < items.len() implies h(#[trigger] items[k]) == Some(
                ids[k],
            ) by {
                assert(items[k] == id_tree()(ids[k]));
            }
            lemma_picked_all(items, h);
            assert(items.map_values(|y: JsonTree| h(y)->0) =~= ids);
            assert(g(t) == Some((x.section.pattern_id, ids)));
        } else {
            assert(picked(Seq::<JsonTree>::empty(), g) =~= Seq::empty());
        }
    }
    lemma_picked_flat(s, f, g, found_mapping());
}

/// The layers of a section are found under its pattern id.
proof fn lemma_layers(s: Seq<Identified>, i: int)
    requires
        distinct_patterns(s),
        0 <= i < s.len(),
    ensures
        layers_of(flat(s, found_mapping()), s[i].section.pattern_id) == s[i].section.layer_ids,
{
    let f = found_mapping();
    let all = flat(s, f);
    let id = s[i].section.pattern_id;
    let p = mapping_named(id);
    let m = (id, s[i].section.layer_ids);
    assert forall|k: int| 0 <= k < all.len() && p(#[trigger] all[k]) implies all[k] == m
        && s[i].section.layer_ids.len() > 0 by {
        let y = all[k];
        assert(all.contains(y));
        lemma_flat_contains(s, f, y);
        let j = choose|j: int| 0 <= j < s.len() && (#[trigger] f(s[j])).contains(y);
        assert(s[j].section.pattern_id == id);
        assert(s[i].section.pattern_id == s[j].section.pattern_id);
    }
    if s[i].section.layer_ids.len() > 0 {
        assert(f(s[i]).contains(m)) by {
            assert(f(s[i])[0] == m);
        }
        lemma_flat_contains(s, f, m);
        lemma_only_match(all, p, m);
    } else {
        lemma_first_index_found(all, p);
        assert(s[i].section.layer_ids =~= Seq::empty());
    }
}

/// The mix of a section is found under its identity.
proof fn lemma_section(s: Seq<Identified>, i: int)
    requires
        distinct_ids(s),
        distinct_patterns(s),
        0 <= i < s.len(),
    ensures
        section_of(s[i].section.kind, flat(s, found_patterns()), flat(s, found_mapping()))(
            s[i].ids[0],
        ) == Some(section_again(s[i].section)),
{
    let f = found_patterns();
    let all = flat(s, f);
    let u = s[i].ids[0];
    let p = pattern_named(u);
    assert(s[i].ids.len() >= 1);
    let m = f(s[i])[0];
    assert(m.uuid == u);
    assert(f(s[i]).contains(m));
    lemma_flat_contains(s, f, m);
    assert forall|k: int| 0 <= k < all.len() && p(#[trigger] all[k]) implies all[k] == m by {
        let y = all[k];
        assert(all.contains(y));
        lemma_flat_contains(s, f, y);
        let j = choose|j: int| 0 <= j < s.len() && (#[trigger] f(s[j])).contains(y);
        let part = f(s[j]);
        let l = choose|l: int| 0 <= l < part.len() && part[l] == y;
        assert(s[j].ids.len() == 1 + s[j].section.layer_ids.len());
        assert(y.uuid == s[j].ids[l]);
        assert(s[i].ids[0] == s[j].ids[l]);
    }
    lemma_only_match(all, p, m);
    lemma_layers(s, i);
    assert(section_of(s[i].section.kind, all, flat(s, found_mapping()))(u)->0 =~= section_again(
        s[i].section,
    ));
}

proof fn lemma_kind_sections(s: Seq<Identified>, kind: SectionKind)
    requires
        distinct_ids(s),
        distinct_patterns(s),
    ensures
        picked(
            flat(s, kind_ids(kind)),
            section_of(kind, flat(s, found_patterns()), flat(s, found_mapping())),
        ) == flat(s, kind_again(kind)),
{
    let f = kind_ids(kind);
    let g = section_of(kind, flat(s, found_patterns()), flat(s, found_mapping()));
    assert forall|i: int| 0 <= i < s.len() implies picked(f(#[trigger] s[i]), g) == kind_again(
        kind,
    )(s[i]) by {
        let x = s[i];
        if x.section.kind == kind {
            lemma_picked_one(x.ids[0], g);
            lemma_section(s, i);
        } else {
            assert(picked(Seq::<Seq<char>>::empty(), g) =~= Seq::empty());
        }
    }
    lemma_picked_flat(s, f, g, kind_again(kind));
}

pub proof fn lemma_module_fields(code: Seq<char>, module_uuid: Seq<char>, s: Seq<Identified>)
    ensures
        ({
            let d = module_data(code, module_uuid, s);
            &&& d is Object
            &&& d.has("uuid"@)
            &&& d.field("uuid"@) == JsonTree::Text(module_uuid)
            &&& d.field("introPatterns"@) == JsonTree::Array(
                flat(s, kind_refs(SectionKind::Intro)),
            )
            &&& d.field("mainPatterns"@) == JsonTree::Array(flat(s, kind_refs(SectionKind::Main)))
            &&& d.field("outroPatterns"@) == JsonTree::Array(
                flat(s, kind_refs(SectionKind::Outro)),
            )
            &&& d.field("layerMappings"@) == JsonTree::Array(flat(s, section_mapping()))
            &&& d.field("layerPatterns"@) == JsonTree::Array(flat(s, section_refs()))
            &&& d.field("id"@) == JsonTree::Text(code)
        }),
{
    reveal_strlit("channelStrip");
    reveal_strlit("id");
    reveal_strlit("introPatterns");
    reveal_strlit("layerMappings");
    reveal_strlit("layerPatterns");
    reveal_strlit("mainPatterns");
    reveal_strlit("outroPatterns");
    reveal_strlit("parameters");
    reveal_strlit("plugins");
    reveal_strlit("scripts");
    reveal_strlit("uuid");
    assert("channelStrip"@.len() == 12);
    assert("id"@.len() == 2);
    assert("introPatterns"@.len() == 13);
    assert("layerMappings"@.len() == 13);
    assert("layerPatterns"@.len() == 13);
    assert("mainPatterns"@.len() == 12);
    assert("outroPatterns"@.len() == 13);
    assert("parameters"@.len() == 10);
    assert("plugins"@.len() == 7);
    assert("scripts"@.len() == 7);
    assert("uuid"@.len() == 4);
    assert("channelStrip"@[0] != "mainPatterns"@[0]);
    assert("introPatterns"@[0] != "layerMappings"@[0]);
    assert("introPatterns"@[0] != "layerPatterns"@[0]);
    assert("introPatterns"@[0] != "outroPatterns"@[0]);
    assert("layerMappings"@[5] != "layerPatterns"@[5]);
    assert("layerMappings"@[0] != "outroPatterns"@[0]);
    assert("layerPatterns"@[0] != "outroPatterns"@[0]);
    assert("plugins"@[0] != "scripts"@[0]);
    let before = empty_object().with("channelStrip"@, strip_tree()).with(
        "id"@,
        JsonTree::Text(code),
    ).with("introPatterns"@, JsonTree::Array(flat(s, kind_refs(SectionKind::Intro)))).with(
        "layerMappings"@,
        JsonTree::Array(flat(s, section_mapping())),
    ).with("layerPatterns"@, JsonTree::Array(flat(s, section_refs()))).with(
        "mainPatterns"@,
        JsonTree::Array(flat(s, kind_refs(SectionKind::Main))),
    ).with("outroPatterns"@, JsonTree::Array(flat(s, kind_refs(SectionKind::Outro)))).with(
        "parameters"@,
        JsonTree::Array(Seq::empty()),
    ).with("plugins"@, JsonTree::Array(Seq::empty())).with("scripts"@, JsonTree::Null);
    crate::json::lemma_with_same(before, "uuid"@, JsonTree::Text(module_uuid));
}

proof fn lemma_page_fields(code: Seq<char>, module_uuid: Seq<char>, page_uuid: Seq<char>)
    ensures
        page_data(code, module_uuid, page_uuid).field("uuid"@) == JsonTree::Text(page_uuid),
{
}

pub proof fn lemma_document_fields(
    code: Seq<char>,
    module_uuid: Seq<char>,
    page_uuid: Seq<char>,
    s: Seq<Identified>,
    created_at: Seq<char>,
)
    ensures
        model_tree(code, module_uuid, page_uuid, s, created_at).field("content"@)
            == JsonTree::Array(content_items(code, module_uuid, page_uuid, s)),
{
    lemma_keys();
}

/// The patterns that are found in the content of a document.
proof fn lemma_found_in_content(
    code: Seq<char>,
    module_uuid: Seq<char>,
    page_uuid: Seq<char>,
    s: Seq<Identified>,
)
    ensures
        picked(content_items(code, module_uuid, page_uuid, s), pattern_of()) == flat(
            s,
            found_patterns(),
        ),
{
    let items = content_items(code, module_uuid, page_uuid, s);
    let page = page_data(code, module_uuid, page_uuid);
    let module = module_data(code, module_uuid, s);
    lemma_keys();
    lemma_item(page, "page"@);
    lemma_item(module, "module"@);
    assert(items[0] == item_tree(page, "page"@));
    assert(items[1] == item_tree(module, "module"@));
    let f = pattern_of();
    let head = seq![items[0], items[1]];
    let tail = flat(s, section_patterns());
    assert(items =~= head + tail);
    lemma_picked_append(head, tail, f);
    assert(f(items[0]) is None);
    assert(f(items[1]) is None);
    assert(picked(head, f) =~= Seq::empty()) by {
        assert(head.drop_last() =~= seq![items[0]]);
        lemma_picked_one(items[0], f);
    }
    assert forall|i: int| 0 <= i < s.len() implies picked(
        section_patterns()(#[trigger] s[i]),
        f,
    ) == found_patterns()(s[i]) by {
        lemma_found_patterns(s[i]);
    }
    lemma_picked_flat(s, section_patterns(), f, found_patterns());
    assert(picked(items, f) =~= flat(s, found_patterns()));
}

/// The page and the module stand first in the content of a document.
proof fn lemma_content_head(
    code: Seq<char>,
    module_uuid: Seq<char>,
    page_uuid: Seq<char>,
    s: Seq<Identified>,
)
    ensures
        ({
            let items = content_items(code, module_uuid, page_uuid, s);
            &&& first_index(items, typed("page"@)) == Some(0int)
            &&& first_index(items, typed("module"@)) == Some(1int)
            &&& items[0].field("data"@) == page_data(code, module_uuid, page_uuid)
            &&& items[1].field("data"@) == module_data(code, module_uuid, s)
        }),
{
    let items = content_items(code, module_uuid, page_uuid, s);
    let page = page_data(code, module_uuid, page_uuid);
    let module = module_data(code, module_uuid, s);
    lemma_keys();
    lemma_item(page, "page"@);
    lemma_item(module, "module"@);
    assert(items[0] == item_tree(page, "page"@));
    assert(items[1] == item_tree(module, "module"@));
    assert(is_first(items, typed("page"@), 0));
    lemma_first_index(items, typed("page"@), 0);
    assert(is_first(items, typed("module"@), 1)) by {
        assert(!typed("module"@)(items[0]));
    }
    lemma_first_index(items, typed("module"@), 1);
}

/// The sections that are found in a document.
proof fn lemma_sections_found(
    code: Seq<char>,
    module_uuid: Seq<char>,
    page_uuid: Seq<char>,
    s: Seq<Identified>,
)
    requires
        distinct_ids(s),
        distinct_patterns(s),
    ensures
        module_sections(
            content_items(code, module_uuid, page_uuid, s),
            module_data(code, module_uuid, s),
        ) == flat(s, kind_again(SectionKind::Intro)) + flat(s, kind_again(SectionKind::Main))
            + flat(s, kind_again(SectionKind::Outro)),
{
    lemma_module_fields(code, module_uuid, s);
    lemma_found_in_content(code, module_uuid, page_uuid, s);
    lemma_found_mappings(s);
    lemma_kind_ids(s, SectionKind::Intro);
    lemma_kind_ids(s, SectionKind::Main);
    lemma_kind_ids(s, SectionKind::Outro);
    lemma_kind_sections(s, SectionKind::Intro);
    lemma_kind_sections(s, SectionKind::Main);
    lemma_kind_sections(s, SectionKind::Outro);
}

/// Reading a document that was written gives back the identities of its
/// module and page, and its sections by kind: their pattern ids, lengths,
/// regions and layers. The patterns have distinct identities and the sections
/// distinct pattern ids.
pub proof fn model_reads_back(
    code: Seq<char>,
    module_uuid: Seq<char>,
    page_uuid: Seq<char>,
    s: Seq<Identified>,
    created_at: Seq<char>,
)
    requires
        distinct_ids(s),
        distinct_patterns(s),
    ensures
        model_of(model_tree(code, module_uuid, page_uuid, s, created_at)) == Ok::<
            ModelFound,
            Seq<char>,
        >(
            ModelFound {
                module_uuid,
                page_uuid,
                sections: flat(s, kind_again(SectionKind::Intro)) + flat(
                    s,
                    kind_again(SectionKind::Main),
                ) + flat(s, kind_again(SectionKind::Outro)),
            },
        ),
{
    lemma_document_fields(code, module_uuid, page_uuid, s, created_at);
    lemma_content_head(code, module_uuid, page_uuid, s);
    lemma_page_fields(code, module_uuid, page_uuid);
    lemma_module_fields(code, module_uuid, s);
    lemma_sections_found(code, module_uuid, page_uuid, s);
}

/// Reading the text that a document was written as gives back what reading the
/// document gives back.
pub proof fn written_model_reads_back(
    text: Seq<char>,
    code: Seq<char>,
    module_uuid: Seq<char>,
    page_uuid: Seq<char>,
    s: Seq<Identified>,
    created_at: Seq<char>,
)
    requires
        written_as(text, model_tree(code, module_uuid, page_uuid, s, created_at)),
        distinct_ids(s),
        distinct_patterns(s),
    ensures
        json_tree(text) matches Ok(doc) && model_of(doc) == Ok::<ModelFound, Seq<char>>(
            ModelFound {
                module_uuid,
                page_uuid,
                sections: flat(s, kind_again(SectionKind::Intro)) + flat(
                    s,
                    kind_again(SectionKind::Main),
                ) + flat(s, kind_again(SectionKind::Outro)),
            },
        ),
{
    model_reads_back(code, module_uuid, page_uuid, s, created_at);
}

/// A section whose fades are finite is read back with its length and with its
/// regions as they were, in sync at their ends where they lead in and at their begins where
/// they lead out.
pub proof fn sections_read_back(s: SectionPlan)
    requires
        regions_kept(s.in_regions),
        regions_kept(s.out_regions),
        forall|i: int|
            0 <= i < s.in_regions.len() ==> (#[trigger] s.in_regions[i]).fade_pct.finite()
                && s.in_regions[i].fade_shape.finite(),
        forall|i: int|
            0 <= i < s.out_regions.len() ==> (#[trigger] s.out_regions[i]).fade_pct.finite()
                && s.out_regions[i].fade_shape.finite(),
    ensures
        section_again(s).len_frames == s.len_frames,
        section_again(s).in_regions == s.in_regions.map_values(
            |r: Region| Region { sync_frames: r.end_frames, ..r },
        ),
        section_again(s).out_regions == s.out_regions.map_values(
            |r: Region| Region { sync_frames: r.begin_frames, ..r },
        ),
{
    assert forall|i: int| 0 <= i < s.in_regions.len() implies section_again(s).in_regions[i] == (
    Region { sync_frames: s.in_regions[i].end_frames, ..s.in_regions[i] }) by {
        assert(region_kept(s.in_regions[i]));
    }
    assert forall|i: int| 0 <= i < s.out_regions.len() implies section_again(s).out_regions[i] == (
    Region { sync_frames: s.out_regions[i].begin_frames, ..s.out_regions[i] }) by {
        assert(region_kept(s.out_regions[i]));
    }
}

} // verus!
