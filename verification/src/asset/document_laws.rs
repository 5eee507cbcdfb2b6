//! What a written model says, item by item and field by field.
use vstd::prelude::*;

use crate::asset::model_laws::lemma_document_fields;
use crate::asset::model_laws::lemma_item;
use crate::asset::model_laws::lemma_keys;
use crate::asset::model_laws::lemma_module_fields;
use crate::asset::model_laws::lemma_pattern_fields;
use crate::asset::wlamodel::content_items;
use crate::asset::wlamodel::item_tree;
use crate::asset::wlamodel::kind_refs;
use crate::asset::wlamodel::loop_end;
use crate::asset::wlamodel::model_tree;
use crate::asset::wlamodel::module_data;
use crate::asset::wlamodel::page_data;
use crate::asset::wlamodel::pattern_data;
use crate::asset::wlamodel::region_tree;
use crate::asset::wlamodel::section_mapping;
use crate::asset::wlamodel::section_patterns;
use crate::asset::wlamodel::section_refs;
use crate::asset::wlamodel::strip_tree;
use crate::asset::wlamodel::uuref_tree;
use crate::asset::wlamodel::Identified;
use crate::json::empty_object;
use crate::json::real_tree;
use crate::json::JsonNumber;
use crate::json::JsonTree;
use crate::navigator::model::Region;
use crate::navigator::model::SectionKind;
use crate::number::Real32;
use crate::seqs::flat;

verus! {

/// The item is of a type.
pub open spec fn item_is(t: JsonTree, kind: Seq<char>) -> bool {
    t.field("type"@) == JsonTree::Text(kind)
}

/// A reference to the item that has the identity `uuid`, and nothing else.
pub open spec fn refers_to(t: JsonTree, uuid: Seq<char>) -> bool {
    t matches JsonTree::Object(fields) && fields == seq![("uuref"@, JsonTree::Text(uuid))]
}

/// The whole number in a field.
pub open spec fn whole_at(t: JsonTree, key: Seq<char>, n: int) -> bool {
    t.field(key) matches JsonTree::Number(JsonNumber::Unsigned(m)) && m == n
}

/// The identity of an item.
pub open spec fn uuid_of(t: JsonTree) -> Seq<char> {
    t.field("data"@).field("uuid"@).text_or_empty()
}

proof fn lemma_refers(uuid: Seq<char>)
    ensures
        refers_to(uuref_tree()(uuid), uuid),
{
    assert(uuref_tree()(uuid) == empty_object().with("uuref"@, JsonTree::Text(uuid)));
    crate::json::lemma_with_same(empty_object(), "uuref"@, JsonTree::Text(uuid));
    let t = uuref_tree()(uuid);
    assert(t->Object_0 =~= seq![("uuref"@, JsonTree::Text(uuid))]);
}

proof fn lemma_all_page_fields(code: Seq<char>, module_uuid: Seq<char>, page_uuid: Seq<char>)
    ensures
        ({
            let d = page_data(code, module_uuid, page_uuid);
            &&& d.field("uuid"@) == JsonTree::Text(page_uuid)
            &&& d.field("id"@) == JsonTree::Text(code)
            &&& d.field("modules"@) == JsonTree::Array(seq![uuref_tree()(module_uuid)])
            &&& d.field("channelStrip"@) == strip_tree()
        }),
{
    broadcast use {crate::json::lemma_with_field, crate::json::lemma_with_object};

    reveal_strlit("channelStrip");
    reveal_strlit("id");
    reveal_strlit("modules");
    reveal_strlit("parameters");
    reveal_strlit("plugins");
    reveal_strlit("scripts");
    reveal_strlit("uuid");
    assert("channelStrip"@.len() == 12);
    assert("id"@.len() == 2);
    assert("modules"@.len() == 7);
    assert("parameters"@.len() == 10);
    assert("plugins"@.len() == 7);
    assert("scripts"@.len() == 7);
    assert("uuid"@.len() == 4);
    assert("modules"@[0] != "plugins"@[0]);
    assert("modules"@[0] != "scripts"@[0]);
    assert("plugins"@[0] != "scripts"@[0]);
}

/// The content of a document is one page, one module and then patterns. The
/// page refers to the module and to nothing else.
pub proof fn the_page_holds_the_module(
    code: Seq<char>,
    module_uuid: Seq<char>,
    page_uuid: Seq<char>,
    s: Seq<Identified>,
    created_at: Seq<char>,
    k: int,
)
    ensures
        ({
            let items = model_tree(code, module_uuid, page_uuid, s, created_at).field(
                "content"@,
            ).items();
            &&& items.len() >= 2
            &&& item_is(items[0], "page"@)
            &&& item_is(items[1], "module"@)
            &&& 2 <= k < items.len() ==> item_is(items[k], "pattern"@)
            &&& uuid_of(items[0]) == page_uuid
            &&& uuid_of(items[1]) == module_uuid
            &&& items[0].field("data"@).field("id"@) == JsonTree::Text(code)
            &&& items[1].field("data"@).field("id"@) == JsonTree::Text(code)
            &&& items[0].field("data"@).field("modules"@) matches JsonTree::Array(refs)
                && refs.len() == 1 && refers_to(refs[0], uuid_of(items[1]))
        }),
{
    let doc = model_tree(code, module_uuid, page_uuid, s, created_at);
    let page = page_data(code, module_uuid, page_uuid);
    let module = module_data(code, module_uuid, s);
    let items = doc.field("content"@).items();
    lemma_document_fields(code, module_uuid, page_uuid, s, created_at);
    lemma_two_items(code, module_uuid, page_uuid, s);
    assert(items == content_items(code, module_uuid, page_uuid, s));
    assert(items[0].field("data"@) == page);
    assert(items[1].field("data"@) == module);
    assert(page.field("uuid"@) == JsonTree::Text(page_uuid) && page.field("id"@) == JsonTree::Text(
        code,
    ) && page.field("modules"@) == JsonTree::Array(seq![uuref_tree()(module_uuid)])) by {
        lemma_all_page_fields(code, module_uuid, page_uuid);
    }
    assert(module.field("uuid"@) == JsonTree::Text(module_uuid) && module.field("id"@)
        == JsonTree::Text(code)) by {
        lemma_module_fields(code, module_uuid, s);
    }
    lemma_refers(module_uuid);
    assert(seq![uuref_tree()(module_uuid)][0] == uuref_tree()(module_uuid));
    if 2 <= k < items.len() {
        let (i, j) = lemma_flat_place(s, k - 2);
        lemma_section_item(s[i], j);
        assert(items[k] == flat(s, section_patterns())[k - 2]);
    }
}

proof fn lemma_two_items(
    code: Seq<char>,
    module_uuid: Seq<char>,
    page_uuid: Seq<char>,
    s: Seq<Identified>,
)
    ensures
        ({
            let items = content_items(code, module_uuid, page_uuid, s);
            &&& items.len() == 2 + flat(s, section_patterns()).len()
            &&& item_is(items[0], "page"@)
            &&& item_is(items[1], "module"@)
            &&& items[0].field("data"@) == page_data(code, module_uuid, page_uuid)
            &&& items[1].field("data"@) == module_data(code, module_uuid, s)
        }),
{
    lemma_item(page_data(code, module_uuid, page_uuid), "page"@);
    lemma_item(module_data(code, module_uuid, s), "module"@);
}

/// The pattern `j` of a section is one item among the patterns of all.
proof fn lemma_flat_place(s: Seq<Identified>, k: int) -> (r: (int, int))
    requires
        0 <= k < flat(s, section_patterns()).len(),
    ensures
        0 <= r.0 < s.len(),
        0 <= r.1 <= s[r.0].section.layer_ids.len(),
        flat(s, section_patterns())[k] == section_patterns()(s[r.0])[r.1],
    decreases s.len(),
{
    let t = s.drop_last();
    let head = flat(t, section_patterns());
    if k < head.len() {
        let r = lemma_flat_place(t, k);
        assert(t[r.0] == s[r.0]);
        r
    } else {
        (s.len() - 1, k - head.len())
    }
}

/// The id of the pattern `j` of a section: that of the mix, then those of the
/// layers.
pub open spec fn pattern_ids(x: Identified) -> Seq<Seq<char>> {
    seq![x.section.pattern_id] + x.section.layer_ids
}

proof fn lemma_section_item(x: Identified, j: int)
    requires
        0 <= j <= x.section.layer_ids.len(),
    ensures
        ({
            let t = section_patterns()(x)[j];
            &&& item_is(t, "pattern"@)
            &&& t.field("data"@) == pattern_data(
                pattern_ids(x)[j],
                x.section.bank_name,
                x.section.len_frames,
                loop_end(x.section),
                if j == 0 {
                    x.section.in_regions
                } else {
                    Seq::empty()
                },
                if j == 0 {
                    x.section.out_regions
                } else {
                    Seq::empty()
                },
                x.ids[j],
            )
        }),
{
    let d = pattern_data(
        pattern_ids(x)[j],
        x.section.bank_name,
        x.section.len_frames,
        loop_end(x.section),
        if j == 0 {
            x.section.in_regions
        } else {
            Seq::empty()
        },
        if j == 0 {
            x.section.out_regions
        } else {
            Seq::empty()
        },
        x.ids[j],
    );
    lemma_item(d, "pattern"@);
    if j > 0 {
        assert(section_patterns()(x)[1 + (j - 1)] == item_tree(d, "pattern"@));
    }
}

/// The module refers to every pattern of the document, one by one and in their
/// order, under `layerPatterns`.
pub proof fn the_module_holds_every_pattern(
    code: Seq<char>,
    module_uuid: Seq<char>,
    page_uuid: Seq<char>,
    s: Seq<Identified>,
    created_at: Seq<char>,
    k: int,
)
    requires
        forall|i: int| 0 <= i < s.len() ==> (#[trigger] s[i]).ids.len() == 1
            + s[i].section.layer_ids.len(),
    ensures
        ({
            let items = model_tree(code, module_uuid, page_uuid, s, created_at).field(
                "content"@,
            ).items();
            let refs = items[1].field("data"@).field("layerPatterns"@).items();
            &&& refs.len() == items.len() - 2
            &&& 0 <= k < refs.len() ==> refers_to(refs[k], uuid_of(items[2 + k]))
        }),
{
    lemma_document_fields(code, module_uuid, page_uuid, s, created_at);
    lemma_item(module_data(code, module_uuid, s), "module"@);
    lemma_module_fields(code, module_uuid, s);
    lemma_refs_match(s, k);
}

proof fn lemma_refs_match(s: Seq<Identified>, k: int)
    requires
        forall|i: int| 0 <= i < s.len() ==> (#[trigger] s[i]).ids.len() == 1
            + s[i].section.layer_ids.len(),
    ensures
        flat(s, section_refs()).len() == flat(s, section_patterns()).len(),
        0 <= k < flat(s, section_refs()).len() ==> refers_to(
            flat(s, section_refs())[k],
            uuid_of(flat(s, section_patterns())[k]),
        ),
    decreases s.len(),
{
    if s.len() > 0 {
        let t = s.drop_last();
        let x = s.last();
        assert forall|i: int| 0 <= i < t.len() implies (#[trigger] t[i]).ids.len() == 1
            + t[i].section.layer_ids.len() by {
            assert(t[i] == s[i]);
        }
        assert(s[s.len() - 1].ids.len() == 1 + x.section.layer_ids.len());
        lemma_refs_match(t, k);
        let head = flat(t, section_refs()).len();
        if head <= k < flat(s, section_refs()).len() {
            let j = k - head;
            lemma_refers(x.ids[j]);
            assert(section_refs()(x)[j] == uuref_tree()(x.ids[j]));
            lemma_section_item(x, j);
            lemma_pattern_uuid(x, j);
        }
    }
}

proof fn lemma_pattern_uuid(x: Identified, j: int)
    requires
        0 <= j <= x.section.layer_ids.len(),
    ensures
        uuid_of(section_patterns()(x)[j]) == x.ids[j],
{
    lemma_section_item(x, j);
    lemma_pattern_fields(
        pattern_ids(x)[j],
        x.section.bank_name,
        x.section.len_frames,
        loop_end(x.section),
        if j == 0 {
            x.section.in_regions
        } else {
            Seq::empty()
        },
        if j == 0 {
            x.section.out_regions
        } else {
            Seq::empty()
        },
        x.ids[j],
    );
}

/// The key under which the module refers to the sections of a kind.
pub open spec fn kind_key(kind: SectionKind) -> Seq<char> {
    match kind {
        SectionKind::Intro => "introPatterns"@,
        SectionKind::Main => "mainPatterns"@,
        SectionKind::Outro => "outroPatterns"@,
    }
}

/// How many of the first `i` sections are of a kind.
pub open spec fn kinds_before(s: Seq<Identified>, kind: SectionKind, i: int) -> nat
    decreases i,
{
    if i <= 0 {
        0
    } else if s[i - 1].section.kind == kind {
        kinds_before(s, kind, i - 1) + 1
    } else {
        kinds_before(s, kind, i - 1)
    }
}

/// The module refers to the mix of each section under the key of its kind, in
/// the order of the sections, and to nothing else there.
pub proof fn the_module_knows_the_kinds(
    code: Seq<char>,
    module_uuid: Seq<char>,
    page_uuid: Seq<char>,
    s: Seq<Identified>,
    created_at: Seq<char>,
    kind: SectionKind,
    i: int,
)
    requires
        0 <= i < s.len(),
    ensures
        ({
            let module = model_tree(code, module_uuid, page_uuid, s, created_at).field(
                "content"@,
            ).items()[1].field("data"@);
            let refs = module.field(kind_key(kind)).items();
            &&& refs.len() == kinds_before(s, kind, s.len() as int)
            &&& s[i].section.kind == kind ==> kinds_before(s, kind, i) < refs.len() && refers_to(
                refs[kinds_before(s, kind, i) as int],
                s[i].ids[0],
            )
        }),
{
    lemma_document_fields(code, module_uuid, page_uuid, s, created_at);
    lemma_item(module_data(code, module_uuid, s), "module"@);
    lemma_module_fields(code, module_uuid, s);
    lemma_kind_refs(s, kind, i);
}

proof fn lemma_kind_refs(s: Seq<Identified>, kind: SectionKind, i: int)
    ensures
        flat(s, kind_refs(kind)).len() == kinds_before(s, kind, s.len() as int),
        0 <= i < s.len() && s[i].section.kind == kind ==> kinds_before(s, kind, i) < flat(
            s,
            kind_refs(kind),
        ).len() && refers_to(
            flat(s, kind_refs(kind))[kinds_before(s, kind, i) as int],
            s[i].ids[0],
        ),
    decreases s.len(),
{
    if s.len() > 0 {
        let t = s.drop_last();
        lemma_kind_refs(t, kind, i);
        lemma_kinds_prefix(s, t, kind, t.len() as int);
        lemma_refers(s.last().ids[0]);
        if 0 <= i < t.len() {
            lemma_kinds_prefix(s, t, kind, i);
            assert(t[i] == s[i]);
        }
    }
}

proof fn lemma_kinds_prefix(s: Seq<Identified>, t: Seq<Identified>, kind: SectionKind, i: int)
    requires
        t == s.drop_last(),
        s.len() > 0,
        0 <= i <= t.len(),
    ensures
        kinds_before(s, kind, i) == kinds_before(t, kind, i),
    decreases i,
{
    if i > 0 {
        lemma_kinds_prefix(s, t, kind, i - 1);
    }
}

/// A pattern says what its section is: its id, its length, where its loop is,
/// which is the whole of it in Main and nothing elsewhere, and its identity.
pub proof fn patterns_say_what_they_are(x: Identified, j: int)
    requires
        0 <= j <= x.section.layer_ids.len(),
    ensures
        ({
            let t = section_patterns()(x)[j];
            let d = t.field("data"@);
            let l = d.field("loop"@);
            &&& section_patterns()(x).len() == 1 + x.section.layer_ids.len()
            &&& item_is(t, "pattern"@)
            &&& d.field("id"@) == JsonTree::Text(
                if j == 0 {
                    x.section.pattern_id
                } else {
                    x.section.layer_ids[j - 1]
                },
            )
            &&& d.field("uuid"@) == JsonTree::Text(x.ids[j])
            &&& whole_at(d, "length"@, x.section.len_frames as int)
            &&& whole_at(l, "begin"@, 0)
            &&& whole_at(
                l,
                "end"@,
                if x.section.kind == SectionKind::Main {
                    x.section.len_frames as int
                } else {
                    0
                },
            )
            &&& l.field("enabled"@) == JsonTree::Bool(true)
            &&& whole_at(l, "xfade"@, 0)
            &&& whole_at(l, "xoffset"@, 0)
            &&& d.field("audioContent"@).field("bankName"@) == JsonTree::Text(x.section.bank_name)
            &&& d.field("audioContent"@).field("readingMethod"@) == JsonTree::Text("Streamed"@)
            &&& j > 0 ==> d.field("inRegions"@).items().len() == 0 && d.field(
                "outRegions"@,
            ).items().len() == 0
        }),
{
    lemma_section_item(x, j);
    if j == 0 {
        lemma_pattern_said(
            x.section.pattern_id,
            x.section.bank_name,
            x.section.len_frames,
            loop_end(x.section),
            x.section.in_regions,
            x.section.out_regions,
            x.ids[0],
        );
    } else {
        lemma_pattern_said(
            x.section.layer_ids[j - 1],
            x.section.bank_name,
            x.section.len_frames,
            loop_end(x.section),
            Seq::empty(),
            Seq::empty(),
            x.ids[j],
        );
    }
}

proof fn lemma_pattern_said(
    id: Seq<char>,
    bank: Seq<char>,
    len: u64,
    end: u64,
    ins: Seq<Region>,
    outs: Seq<Region>,
    uuid: Seq<char>,
)
    ensures
        ({
            let d = pattern_data(id, bank, len, end, ins, outs, uuid);
            let l = d.field("loop"@);
            &&& d.field("id"@) == JsonTree::Text(id)
            &&& d.field("uuid"@) == JsonTree::Text(uuid)
            &&& whole_at(d, "length"@, len as int)
            &&& whole_at(l, "begin"@, 0)
            &&& whole_at(l, "end"@, end as int)
            &&& l.field("enabled"@) == JsonTree::Bool(true)
            &&& whole_at(l, "xfade"@, 0)
            &&& whole_at(l, "xoffset"@, 0)
            &&& d.field("audioContent"@).field("bankName"@) == JsonTree::Text(bank)
            &&& d.field("audioContent"@).field("readingMethod"@) == JsonTree::Text("Streamed"@)
            &&& d.field("inRegions"@).items().len() == ins.len()
            &&& d.field("outRegions"@).items().len() == outs.len()
        }),
{
    lemma_pattern_fields(id, bank, len, end, ins, outs, uuid);
    lemma_loop_fields(end);
    lemma_audio_fields(bank, id);
}

proof fn lemma_loop_fields(end: u64)
    ensures
        ({
            let l = crate::asset::wlamodel::loop_tree(0, end);
            &&& whole_at(l, "begin"@, 0)
            &&& whole_at(l, "end"@, end as int)
            &&& l.field("enabled"@) == JsonTree::Bool(true)
            &&& whole_at(l, "xfade"@, 0)
            &&& whole_at(l, "xoffset"@, 0)
        }),
{
    broadcast use {crate::json::lemma_with_field, crate::json::lemma_with_object};

    reveal_strlit("begin");
    reveal_strlit("enabled");
    reveal_strlit("end");
    reveal_strlit("xfade");
    reveal_strlit("xoffset");
    assert("begin"@.len() == 5);
    assert("enabled"@.len() == 7);
    assert("end"@.len() == 3);
    assert("xfade"@.len() == 5);
    assert("xoffset"@.len() == 7);
    assert("begin"@[0] != "xfade"@[0]);
    assert("enabled"@[0] != "xoffset"@[0]);
}

proof fn lemma_audio_fields(bank: Seq<char>, id: Seq<char>)
    ensures
        ({
            let a = crate::asset::wlamodel::audio_tree(bank, id);
            &&& a.field("bankName"@) == JsonTree::Text(bank)
            &&& a.field("readingMethod"@) == JsonTree::Text("Streamed"@)
        }),
{
    broadcast use {crate::json::lemma_with_field, crate::json::lemma_with_object};

    reveal_strlit("bankName");
    reveal_strlit("clipName");
    reveal_strlit("readingMethod");
    assert("bankName"@.len() == 8);
    assert("bankName"@[0] != "clipName"@[0]);
    assert("clipName"@.len() == 8);
    assert("readingMethod"@.len() == 13);
}

/// The mix of a section has its regions, one by one and in their order, each
/// with its bounds, its fade and its group.
pub proof fn regions_say_what_they_are(x: Identified, entries: bool, i: int)
    ensures
        ({
            let d = section_patterns()(x)[0].field("data"@);
            let written = if entries {
                d.field("inRegions"@).items()
            } else {
                d.field("outRegions"@).items()
            };
            let regions = if entries {
                x.section.in_regions
            } else {
                x.section.out_regions
            };
            &&& written.len() == regions.len()
            &&& 0 <= i < regions.len() ==> {
                &&& whole_at(written[i], "begin"@, regions[i].begin_frames as int)
                &&& whole_at(written[i], "end"@, regions[i].end_frames as int)
                &&& written[i].field("fadePercentage"@) == real_tree(regions[i].fade_pct)
                &&& written[i].field("fadeShape"@) == real_tree(regions[i].fade_shape)
                &&& whole_at(written[i], "group"@, regions[i].group as int)
            }
        }),
{
    lemma_section_item(x, 0);
    lemma_pattern_fields(
        pattern_ids(x)[0],
        x.section.bank_name,
        x.section.len_frames,
        loop_end(x.section),
        x.section.in_regions,
        x.section.out_regions,
        x.ids[0],
    );
    let regions = if entries {
        x.section.in_regions
    } else {
        x.section.out_regions
    };
    if 0 <= i < regions.len() {
        lemma_region_fields(regions[i]);
    }
}

proof fn lemma_region_fields(r: Region)
    ensures
        ({
            let t = region_tree()(r);
            &&& whole_at(t, "begin"@, r.begin_frames as int)
            &&& whole_at(t, "end"@, r.end_frames as int)
            &&& t.field("fadePercentage"@) == real_tree(r.fade_pct)
            &&& t.field("fadeShape"@) == real_tree(r.fade_shape)
            &&& whole_at(t, "group"@, r.group as int)
        }),
{
    broadcast use {crate::json::lemma_with_field, crate::json::lemma_with_object};

    reveal_strlit("begin");
    reveal_strlit("end");
    reveal_strlit("fadePercentage");
    reveal_strlit("fadeShape");
    reveal_strlit("group");
    assert("begin"@.len() == 5);
    assert("end"@.len() == 3);
    assert("fadePercentage"@.len() == 14);
    assert("fadeShape"@.len() == 9);
    assert("group"@.len() == 5);
    assert("begin"@[0] != "group"@[0]);
}

/// The page, the module and every pattern are written at full volume and width
/// and in the centre.
pub proof fn strips_are_neutral()
    ensures
        strip_tree().field("volume"@) == real_tree(Real32 { bits: 0x3f80_0000 }),
        strip_tree().field("width"@) == real_tree(Real32 { bits: 0x3f80_0000 }),
        strip_tree().field("pan"@) == real_tree(Real32 { bits: 0x3f00_0000 }),
{
    broadcast use {crate::json::lemma_with_field, crate::json::lemma_with_object};

    reveal_strlit("pan");
    reveal_strlit("volume");
    reveal_strlit("width");
    assert("pan"@.len() == 3);
    assert("volume"@.len() == 6);
    assert("width"@.len() == 5);
}

/// The layers of a section that has any stand under the id of its mix, in their
/// order.
pub proof fn layers_stand_under_their_mix(x: Identified, i: int)
    ensures
        x.section.layer_ids.len() == 0 ==> section_mapping()(x).len() == 0,
        x.section.layer_ids.len() > 0 ==> {
            let m = section_mapping()(x);
            &&& m.len() == 1
            &&& m[0].field("patternId"@) == JsonTree::Text(x.section.pattern_id)
            &&& m[0].field("layers"@).items().len() == x.section.layer_ids.len()
            &&& 0 <= i < x.section.layer_ids.len() ==> m[0].field("layers"@).items()[i].field(
                "id"@,
            ) == JsonTree::Text(x.section.layer_ids[i])
        },
{
    broadcast use {crate::json::lemma_with_field, crate::json::lemma_with_object};

    reveal_strlit("layers");
    reveal_strlit("patternId");
    assert("layers"@.len() == 6);
    assert("patternId"@.len() == 9);
}

/// The document tells when and by what it was written, and in which version of
/// the format.
pub proof fn documents_are_stamped(
    code: Seq<char>,
    module_uuid: Seq<char>,
    page_uuid: Seq<char>,
    s: Seq<Identified>,
    created_at: Seq<char>,
)
    ensures
        ({
            let d = model_tree(code, module_uuid, page_uuid, s, created_at).field("document"@);
            &&& d.field("createdAt"@) == JsonTree::Text(created_at)
            &&& d.field("createdBy"@) == JsonTree::Text("Gatherer Hub 1.0"@)
            &&& whole_at(d, "version"@, 1)
        }),
{
    broadcast use {crate::json::lemma_with_field, crate::json::lemma_with_object};

    lemma_keys();
    reveal_strlit("createdAt");
    reveal_strlit("createdBy");
    reveal_strlit("version");
    assert("createdAt"@.len() == 9);
    assert("createdBy"@.len() == 9);
    assert("createdAt"@[7] != "createdBy"@[7]);
    assert("version"@.len() == 7);
}

} // verus!
