//! Where things stand in banks, recipes and time stamps.
use vstd::prelude::*;

use vstd::utf8::encode_utf8;

use crate::adaptive::MixerView;
use crate::adaptive::SlotParams;
use crate::asset::ttasset::formula_name;
use crate::asset::ttasset::formula_name_reads_back;
use crate::asset::ttasset::formula_tree;
use crate::asset::ttasset::layer_applied;
use crate::asset::ttasset::layer_of;
use crate::asset::ttasset::layer_tree;
use crate::asset::ttasset::meta_tree;
use crate::asset::ttasset::music_tree;
use crate::asset::ttasset::named_formula;
use crate::asset::ttasset::names_tree;
use crate::asset::ttasset::reals_tree;
use crate::asset::ttasset::recipe_of;
use crate::asset::ttasset::recipe_path;
use crate::asset::ttasset::recipe_tree;
use crate::asset::ttasset::renamed;
use crate::asset::ttasset::shaped;
use crate::asset::ttasset::without_type;
use crate::asset::ttasset::LayerView;
use crate::asset::ttasset::RecipeView;
use crate::asset::wlabank::bank_bytes;
use crate::asset::wlabank::bank_chunks;
use crate::asset::wlabank::bank_has_its_length;
use crate::asset::wlabank::bank_id;
use crate::asset::wlabank::bank_len;
use crate::asset::wlabank::chunk_bytes;
use crate::asset::wlabank::data_chunk;
use crate::asset::wlabank::data_len;
use crate::asset::wlabank::entry_clip;
use crate::asset::wlabank::entry_payloads;
use crate::asset::wlabank::form_id;
use crate::asset::wlabank::head_id;
use crate::asset::wlabank::index_chunk;
use crate::asset::wlabank::index_id;
use crate::asset::wlabank::index_len;
use crate::asset::wlabank::index_payloads;
use crate::asset::wlabank::is_bank;
use crate::asset::wlabank::lemma_flat_at;
use crate::asset::wlabank::lemma_flat_len;
use crate::asset::wlabank::lemma_index_part_len;
use crate::asset::wlabank::lemma_payload_in_place;
use crate::asset::wlabank::lemma_walk;
use crate::asset::wlabank::payload_offset;
use crate::asset::wlabank::sound_chunks;
use crate::asset::wlabank::BankClipView;
use crate::asset::wlabank::Chunk;
use crate::asset::wlamodel::date_text;
use crate::asset::wlamodel::days_to_month;
use crate::asset::wlamodel::days_to_year;
use crate::asset::wlamodel::in_region_of;
use crate::asset::wlamodel::is_date;
use crate::asset::wlamodel::leap;
use crate::asset::wlamodel::layers_of;
use crate::asset::wlamodel::lemma_months_make_year;
use crate::asset::wlamodel::mapping_named;
use crate::asset::wlamodel::mapping_of;
use crate::asset::wlamodel::model_of;
use crate::asset::wlamodel::module_sections;
use crate::asset::wlamodel::month_days;
use crate::asset::wlamodel::out_region_of;
use crate::asset::wlamodel::pattern_length;
use crate::asset::wlamodel::pattern_named;
use crate::asset::wlamodel::pattern_of;
use crate::asset::wlamodel::seconds_to;
use crate::asset::wlamodel::section_of;
use crate::asset::wlamodel::text_in;
use crate::asset::wlamodel::typed;
use crate::asset::wlamodel::year_days;
use crate::asset::wlamodel::PatternFound;
use crate::asset::wlamodel::SectionFound;
use crate::bytes::be32;
use crate::bytes::be32_at;
use crate::bytes::lemma_be32;
use crate::json::lemma_with_field;
use crate::json::lemma_with_object;
use crate::json::real_tree;
use crate::json::whole_tree;
use crate::json::JsonTree;
use crate::navigator::model::AssetMetaView;
use crate::navigator::model::SectionKind;
use crate::number::Real32;
use crate::number::HALF_BITS;
use crate::number::ZERO_BITS;
use crate::seqs::first_index;
use crate::seqs::flat;
use crate::seqs::is_last;
use crate::seqs::last_index;
use crate::seqs::lemma_first_index_found;
use crate::seqs::lemma_last_index;
use crate::seqs::lemma_picked_append;
use crate::seqs::lemma_picked_take;
use crate::seqs::lemma_total_take;
use crate::seqs::picked;
use crate::seqs::total;
use crate::text::begins_with;
use crate::text::digits_value;
use crate::text::number_text;
use crate::text::padded;
use crate::text_laws::padding_keeps_the_number;

verus! {

broadcast use crate::bytes::lemma_be32_len;

// Banks.

/// The bytes at `i` are the four letters of a chunk, then how many bytes follow.
pub open spec fn chunk_at(s: Seq<u8>, i: int, a: u8, b: u8, c: u8, d: u8, n: int) -> bool {
    &&& 0 <= i
    &&& i + 8 + n <= s.len()
    &&& s[i] == a && s[i + 1] == b && s[i + 2] == c && s[i + 3] == d
    &&& be32_at(s, i + 4) == n
}

/// A bank is a form "WLAB" that tells how many bytes follow its first eight. It
/// begins with the head "HEAD", whose four bytes are version 1.
pub proof fn banks_begin_with_their_head(clips: Seq<BankClipView>)
    requires
        bank_len(clips) <= u32::MAX,
    ensures
        ({
            let b = bank_bytes(clips);
            &&& chunk_at(b, 0, 70, 79, 82, 77, b.len() - 8)
            &&& b[8] == 87 && b[9] == 76 && b[10] == 65 && b[11] == 66
            &&& chunk_at(b, 12, 72, 69, 65, 68, 4)
            &&& be32_at(b, 20) == 1
            &&& is_bank(b)
        }),
{
    let b = bank_bytes(clips);
    let s = bank_chunks(clips);
    bank_has_its_length(clips);
    let n = be32(bank_len(clips) - 8);
    lemma_be32(bank_len(clips) - 8);
    assert(b[4] == n[0] && b[5] == n[1] && b[6] == n[2] && b[7] == n[3]);
    lemma_chunk_stands(clips, 0);
    assert(s.take(0) =~= Seq::empty());
    assert(s[0] == (Chunk { id: head_id(), payload: be32(1) }));
    lemma_be32(1);
    let v = be32(1);
    assert(b[20] == v[0] && b[21] == v[1] && b[22] == v[2] && b[23] == v[3]) by {
        assert(b.subrange(20, 24)[0] == b[20]);
        assert(b.subrange(20, 24)[1] == b[21]);
        assert(b.subrange(20, 24)[2] == b[22]);
        assert(b.subrange(20, 24)[3] == b[23]);
    }
    assert(b.subrange(0, 4) =~= form_id());
    assert(b.subrange(8, 12) =~= bank_id());
}

/// Where chunk `k` of a bank stands.
proof fn lemma_chunk_stands(clips: Seq<BankClipView>, k: int)
    requires
        bank_len(clips) <= u32::MAX,
        0 <= k < bank_chunks(clips).len(),
        bank_chunks(clips)[k].payload.len() <= u32::MAX,
        bank_chunks(clips)[k].id.len() == 4,
    ensures
        ({
            let s = bank_chunks(clips);
            let c = s[k];
            let b = bank_bytes(clips);
            let at = 12int + flat(s.take(k), chunk_bytes()).len();
            let n = c.payload.len();
            &&& chunk_at(b, at, c.id[0], c.id[1], c.id[2], c.id[3], n as int)
            &&& b.subrange(at + 8, at + 8 + n) == c.payload
            &&& n % 2 == 1 ==> at + 8 + n < b.len() && b[at + 8 + n] == 0
        }),
{
    let s = bank_chunks(clips);
    let f = chunk_bytes();
    let c = s[k];
    let data = bank_bytes(clips);
    let start = form_id() + be32(bank_len(clips) - 8) + bank_id();
    lemma_flat_at(s, f, k);
    let before = flat(s.take(k), f);
    let b = f(c);
    let after = flat(s.skip(k + 1), f);
    let n = c.payload.len() as int;
    let at = 12int + before.len();
    assert(data =~= start + before + b + after);
    assert forall|j: int| 0 <= j < b.len() implies data[at + j] == #[trigger] b[j] by {}
    lemma_be32(n);
    let q = be32(n);
    assert(b[0] == c.id[0] && b[1] == c.id[1] && b[2] == c.id[2] && b[3] == c.id[3]);
    assert(b[4] == q[0] && b[5] == q[1] && b[6] == q[2] && b[7] == q[3]);
    assert(data[at] == b[0]);
    assert(be32_at(data, at + 4) == be32_at(q, 0));
    assert(data.subrange(at + 8, at + 8 + n) =~= c.payload) by {
        assert forall|j: int| 0 <= j < n implies data[at + 8 + j] == #[trigger] c.payload[j] by {
            assert(b[8 + j] == c.payload[j]);
            assert(data[at + (8 + j)] == b[8 + j]);
        }
    }
    if n % 2 == 1 {
        assert(b[8 + n] == 0);
        assert(data[at + (8 + n)] == b[8 + n]);
    }
}

/// Behind the head the entries "BIDX" of the clips stand one behind the other.
/// Each tells where the payload of its clip begins and how many bytes that has,
/// the channels, the sample rate, the frame count in 32 bits, and the name.
pub proof fn entries_describe_their_clips(clips: Seq<BankClipView>, i: int)
    requires
        bank_len(clips) <= u32::MAX,
        0 <= i < clips.len(),
    ensures
        ({
            let b = bank_bytes(clips);
            let at = 24int + total(clips.take(i), index_len());
            let name = encode_utf8(clips[i].clip_name);
            &&& chunk_at(b, at, 66, 73, 68, 88, 20int + name.len())
            &&& be32_at(b, at + 8) == payload_offset(clips, i)
            &&& be32_at(b, at + 12) == clips[i].ogg.len()
            &&& be32_at(b, at + 16) == clips[i].channels
            &&& be32_at(b, at + 20) == clips[i].sample_rate
            &&& be32_at(b, at + 24) == clips[i].frame_count as int % 0x1_0000_0000
            &&& b.subrange(at + 28, at + 28 + name.len()) == name
        }),
{
    let s = bank_chunks(clips);
    let b = bank_bytes(clips);
    let c = clips[i];
    let name = encode_utf8(c.clip_name);
    let k = 1 + i;
    assert(s[k] == index_chunk(clips, i));
    let p = s[k].payload;
    bank_has_its_length(clips);
    lemma_fits(clips, i);
    lemma_payload_in_place(clips, i);
    lemma_index_part_len(clips, i);
    assert(p.len() == 20 + name.len());
    lemma_chunk_stands(clips, k);
    let at = 24int + total(clips.take(i), index_len());
    assert(12int + flat(s.take(k), chunk_bytes()).len() == at);
    let (x, y) = (payload_offset(clips, i) as int, c.ogg.len() as int);
    let f = c.frame_count as int % 0x1_0000_0000;
    lemma_be32(x);
    lemma_be32(y);
    lemma_be32(c.channels as int);
    lemma_be32(c.sample_rate as int);
    lemma_be32(f);
    assert forall|j: int| 0 <= j < p.len() implies b[at + 8 + j] == #[trigger] p[j] by {
        assert(b.subrange(at + 8, at + 8 + p.len())[j] == b[at + 8 + j]);
    }
    lemma_numbers(p, x, y, c.channels as int, c.sample_rate as int, f, name);
    lemma_moved(b, at + 8, p, 0);
    lemma_moved(b, at + 8, p, 4);
    lemma_moved(b, at + 8, p, 8);
    lemma_moved(b, at + 8, p, 12);
    lemma_moved(b, at + 8, p, 16);
    assert(b.subrange(at + 28, at + 28 + name.len()) =~= name) by {
        assert forall|j: int| 0 <= j < name.len() implies b[at + 28 + j] == #[trigger] name[j] by {
            assert(p[20 + j] == name[j]);
            assert(b[at + 8 + (20 + j)] == p[20 + j]);
        }
    }
}

proof fn lemma_moved(b: Seq<u8>, at: int, p: Seq<u8>, i: int)
    requires
        0 <= at,
        0 <= i,
        i + 4 <= p.len(),
        forall|j: int| 0 <= j < p.len() ==> b[at + j] == #[trigger] p[j],
    ensures
        be32_at(b, at + i) == be32_at(p, i),
{
    assert(b[at + i] == p[i]);
    assert(b[at + (i + 1)] == p[i + 1]);
    assert(b[at + (i + 2)] == p[i + 2]);
    assert(b[at + (i + 3)] == p[i + 3]);
}

proof fn lemma_numbers(p: Seq<u8>, a: int, b: int, c: int, d: int, e: int, name: Seq<u8>)
    requires
        p == be32(a) + be32(b) + be32(c) + be32(d) + be32(e) + name,
    ensures
        be32_at(p, 0) == be32_at(be32(a), 0),
        be32_at(p, 4) == be32_at(be32(b), 0),
        be32_at(p, 8) == be32_at(be32(c), 0),
        be32_at(p, 12) == be32_at(be32(d), 0),
        be32_at(p, 16) == be32_at(be32(e), 0),
        forall|j: int| 0 <= j < name.len() ==> p[20 + j] == #[trigger] name[j],
{
}

proof fn lemma_fits(clips: Seq<BankClipView>, i: int)
    requires
        bank_len(clips) <= u32::MAX,
        0 <= i < clips.len(),
    ensures
        payload_offset(clips, i) + clips[i].ogg.len() <= u32::MAX,
        20 + encode_utf8(clips[i].clip_name).len() <= u32::MAX,
{
    bank_has_its_length(clips);
    lemma_payload_in_place(clips, i);
    lemma_total_take(clips, index_len(), i);
    crate::seqs::lemma_total_prefix(clips, index_len(), i + 1);
}

/// Behind the entries the payloads "BBIN" stand one behind the other, each where
/// its entry says, as it was given. A zero follows one of odd length.
pub proof fn payloads_stand_where_their_entries_say(clips: Seq<BankClipView>, i: int)
    requires
        bank_len(clips) <= u32::MAX,
        0 <= i < clips.len(),
    ensures
        ({
            let b = bank_bytes(clips);
            let at = payload_offset(clips, i) as int;
            let n = clips[i].ogg.len() as int;
            &&& at == 32 + total(clips, index_len()) + total(clips.take(i), data_len())
            &&& chunk_at(b, at - 8, 66, 66, 73, 78, n)
            &&& b.subrange(at, at + n) == clips[i].ogg
            &&& n % 2 == 1 ==> at + n < b.len() && b[at + n] == 0
        }),
{
    let s = bank_chunks(clips);
    let k = 1 + clips.len() as int + i;
    assert(s[k] == data_chunk(clips, i));
    lemma_fits(clips, i);
    lemma_flat_len(clips, i);
    lemma_chunk_stands(clips, k);
}

/// Entries and payloads take an even number of bytes: their eight bytes of head,
/// what they hold, and a zero where that is odd.
pub proof fn chunks_are_even(c: BankClipView)
    ensures
        index_len()(c) % 2 == 0,
        data_len()(c) % 2 == 0,
        28 + encode_utf8(c.clip_name).len() <= index_len()(c) <= 29 + encode_utf8(
            c.clip_name,
        ).len(),
        8 + c.ogg.len() <= data_len()(c) <= 9 + c.ogg.len(),
{
}

/// Whatever chunks a file holds, those are taken as entries whose letters are
/// "BIDX" and that hold the five numbers. All others are passed over.
pub proof fn only_entries_are_read(pre: Seq<u8>, s: Seq<Chunk>)
    requires
        sound_chunks(s),
    ensures
        index_payloads(pre + flat(s, chunk_bytes()), pre.len() as int) == s.filter(
            |c: Chunk| c.id == seq![66u8, 73, 68, 88] && c.payload.len() >= 20,
        ).map_values(|c: Chunk| c.payload),
{
    lemma_walk(pre + flat(s, chunk_bytes()), pre, s);
    lemma_entries(s);
}

proof fn lemma_entries(s: Seq<Chunk>)
    ensures
        entry_payloads(s) == s.filter(
            |c: Chunk| c.id == seq![66u8, 73, 68, 88] && c.payload.len() >= 20,
        ).map_values(|c: Chunk| c.payload),
    decreases s.len(),
{
    let f = |c: Chunk| c.id == seq![66u8, 73, 68, 88] && c.payload.len() >= 20;
    let g = |c: Chunk| c.payload;
    reveal(Seq::filter);
    if s.len() > 0 {
        let t = s.skip(1);
        lemma_entries(t);
        assert(s =~= seq![s[0]] + t);
        Seq::filter_distributes_over_add(seq![s[0]], t, f);
        assert(seq![s[0]].drop_last() =~= Seq::empty());
        assert(seq![s[0]].drop_last().filter(f) =~= Seq::empty());
        assert(seq![s[0]].filter(f) =~= if f(s[0]) {
            seq![s[0]]
        } else {
            Seq::empty()
        });
        assert(seq![66u8, 73, 68, 88] =~= index_id());
        assert(s.filter(f).map_values(g) =~= entry_payloads(s));
    } else {
        assert(s.filter(f).map_values(g) =~= entry_payloads(s));
    }
}

/// A file is a bank by its first letters and those of its type, however long it
/// says it is.
pub proof fn banks_are_told_by_their_letters(data: Seq<u8>)
    ensures
        is_bank(data) <==> data.len() >= 12 && data[0] == 70 && data[1] == 79 && data[2] == 82
            && data[3] == 77 && data[8] == 87 && data[9] == 76 && data[10] == 65 && data[11] == 66,
{
    if data.len() >= 12 {
        let (a, b) = (data.subrange(0, 4), data.subrange(8, 12));
        assert(a[0] == data[0] && a[1] == data[1] && a[2] == data[2] && a[3] == data[3]);
        assert(b[0] == data[8] && b[1] == data[9] && b[2] == data[10] && b[3] == data[11]);
        if data[0] == 70 && data[1] == 79 && data[2] == 82 && data[3] == 77 {
            assert(a =~= form_id());
        }
        if data[8] == 87 && data[9] == 76 && data[10] == 65 && data[11] == 66 {
            assert(b =~= bank_id());
        }
    }
}

/// An entry whose payload is not all in the file gives a clip without sound; its
/// numbers are read all the same.
pub proof fn entries_beyond_the_end_have_no_sound(data: Seq<u8>, p: Seq<u8>)
    requires
        p.len() >= 20,
    ensures
        ({
            let c = entry_clip(data)(p);
            let (start, n) = (be32_at(p, 0), be32_at(p, 4));
            &&& c.ogg is Some <==> start + n <= data.len()
            &&& c.ogg matches Some(s) ==> s.len() == n && (forall|j: int|
                0 <= j < n ==> #[trigger] s[j] == data[start + j])
            &&& c.channels == be32_at(p, 8)
            &&& c.sample_rate == be32_at(p, 12)
            &&& c.frame_count == be32_at(p, 16)
        }),
{
}

// Recipes.

/// A recipe has the names and the description of its asset, the identities that
/// were given, and the eight layers of the mixer.
pub proof fn recipes_describe_the_asset(
    m: MixerView,
    meta: AssetMetaView,
    music: Seq<char>,
    page: Seq<char>,
    s: int,
)
    ensures
        ({
            let r = recipe_of(m, meta, music, page);
            &&& r.production_code == meta.production_code && r.variant_name == meta.variant_name
            &&& r.asset_name == meta.asset_name && r.description == meta.description
            &&& r.id == music && r.page_uuid == page
            &&& r.layers.len() == 8
            &&& 0 <= s < 8 ==> r.layers[s].layer == s
        }),
{
}

/// A layer has the constants of its slot in the order steepness, deviation,
/// minimum, maximum, level, its factors in the order Dark, Neutral, Bright, and
/// the name of its formula.
pub proof fn layers_describe_their_slot(m: MixerView, s: int)
    requires
        0 <= s < 8,
    ensures
        ({
            let l = layer_of(m, s);
            let p = m.slot_params[s];
            &&& l.layer == s
            &&& l.constant_values.len() == 5
            &&& l.constant_values[0] == p.steepness && l.constant_values[1] == p.deviation
            &&& l.constant_values[2] == p.minimum && l.constant_values[3] == p.maximum
            &&& l.constant_values[4] == p.original_level
            &&& l.mood_factors.len() == 3 && l.balancer_include_factors.len() == 3
            &&& forall|k: int|
                0 <= k < 3 ==> #[trigger] l.mood_factors[k] == m.mood_weight[k][s]
            &&& forall|k: int|
                0 <= k < 3 ==> #[trigger] l.balancer_include_factors[k] == m.balancer_mask[k][s]
            &&& 1 <= p.formula <= 9 ==> named_formula(l.formula_type) == p.formula
        }),
{
    formula_name_reads_back(m.slot_params[s].formula);
}

/// A formula that is read is one of the nine. It is the one whose number stands
/// behind the word "type", and the first where there is no number.
pub proof fn named_formulas_are_of_the_nine(s: Seq<char>)
    ensures
        1 <= named_formula(s) <= 9,
        number_text(without_type(s), 255) is None ==> named_formula(s) == 1,
        number_text(without_type(s), 255) matches Some(n) ==> (1 <= n <= 9 ==> named_formula(s)
            == n) && (n > 9 ==> named_formula(s) == 9),
        begins_with(formula_name(1), "type"@),
{
    reveal_strlit("type");
    assert(formula_name(1).subrange(0, 4) =~= "type"@);
}

/// A layer sets its slot and no other. Without all five constants it sets the
/// formula alone, and of the masks as many moods as it has factors for. A layer
/// that the mixer does not have sets nothing.
pub proof fn a_layer_sets_its_slot(m: MixerView, l: LayerView, k: int, s: int)
    requires
        shaped(m),
        0 <= k < 3,
        0 <= s < 8,
    ensures
        ({
            let r = layer_applied(m, l);
            let (o, n) = (m.slot_params[s], r.slot_params[s]);
            &&& l.layer >= 8 ==> r == m
            &&& s != l.layer ==> n == o && r.mood_weight[k][s] == m.mood_weight[k][s]
                && r.balancer_mask[k][s] == m.balancer_mask[k][s]
            &&& s == l.layer ==> {
                &&& n.formula == named_formula(l.formula_type)
                &&& l.constant_values.len() < 5 ==> (SlotParams { formula: o.formula, ..n }) == o
                &&& l.constant_values.len() >= 5 ==> n.steepness == l.constant_values[0]
                    && n.deviation == l.constant_values[1] && n.minimum == l.constant_values[2]
                    && n.maximum == l.constant_values[3] && n.original_level
                    == l.constant_values[4]
                &&& r.mood_weight[k][s] == if k < l.mood_factors.len() {
                    l.mood_factors[k]
                } else {
                    m.mood_weight[k][s]
                }
                &&& r.balancer_mask[k][s] == if k < l.balancer_include_factors.len() {
                    l.balancer_include_factors[k]
                } else {
                    m.balancer_mask[k][s]
                }
            }
            &&& shaped(r)
            &&& (MixerView {
                slot_params: m.slot_params,
                mood_weight: m.mood_weight,
                balancer_mask: m.balancer_mask,
                ..r
            }) == m
        }),
{
    named_formulas_are_of_the_nine(l.formula_type);
    let r = layer_applied(m, l);
    assert(m.mood_weight[k].len() == 8);
    assert forall|j: int| 0 <= j < 3 implies (#[trigger] r.mood_weight[j]).len() == 8
        && r.balancer_mask[j].len() == 8 by {
        assert(m.mood_weight[j].len() == 8);
    }
}

/// The names of a recipe become those of the asset; what else is said of it
/// stays.
pub proof fn recipes_name_the_asset(meta: AssetMetaView, r: RecipeView)
    ensures
        ({
            let n = renamed(meta, r);
            &&& n.production_code == r.production_code && n.variant_name == r.variant_name
            &&& n.asset_name == r.asset_name
            &&& n.description == meta.description && n.tags == meta.tags && n.asset_type
                == meta.asset_type
        }),
{
}

/// The file of a recipe is the code of its asset and the ending ".ttasset".
pub proof fn recipe_files_are_named_by_code(meta: AssetMetaView)
    ensures
        begins_with(recipe_path(meta), meta.production_code),
        recipe_path(meta).skip(meta.production_code.len() as int) == ".ttasset"@,
{
    let s = recipe_path(meta);
    let c = meta.production_code;
    assert(s.subrange(0, c.len() as int) =~= c);
    assert(s.skip(c.len() as int) =~= ".ttasset"@);
}

/// What a recipe's document says of the asset.
pub proof fn recipe_documents_name_the_asset(r: RecipeView)
    ensures
        ({
            let m = recipe_tree(r).field("meta"@);
            &&& m.field("productionCode"@) == JsonTree::Text(r.production_code)
            &&& m.field("variantName"@) == JsonTree::Text(r.variant_name)
            &&& m.field("assetName"@) == JsonTree::Text(r.asset_name)
            &&& m.field("documentType"@) == JsonTree::Text("asset"@)
            &&& m.field("assetType"@) == JsonTree::Text("music"@)
            &&& m.field("documentFormatVersion"@) == whole_tree(1)
        }),
{
    broadcast use {lemma_with_field, lemma_with_object};

    reveal_strlit("meta");
    reveal_strlit("music");
    assert("meta"@.len() == 4 && "music"@.len() == 5);
    assert(recipe_tree(r).field("meta"@) == meta_tree(r));
    reveal_strlit("documentType");
    reveal_strlit("assetType");
    reveal_strlit("documentFormatVersion");
    reveal_strlit("productionCode");
    reveal_strlit("variantName");
    reveal_strlit("assetName");
    assert("documentType"@.len() == 12);
    assert("assetType"@.len() == 9 && "assetType"@[5] == 'T');
    assert("documentFormatVersion"@.len() == 21);
    assert("productionCode"@.len() == 14);
    assert("variantName"@.len() == 11);
    assert("assetName"@.len() == 9 && "assetName"@[5] == 'N');
}

/// What a recipe's document says of the music: its identities, description and
/// layers, one for each.
pub proof fn recipe_documents_hold_the_layers(r: RecipeView, i: int)
    ensures
        ({
            let m = recipe_tree(r).field("music"@);
            &&& m.field("id"@) == JsonTree::Text(r.id)
            &&& m.field("pageUuid"@) == JsonTree::Text(r.page_uuid)
            &&& m.field("description"@) == JsonTree::Text(r.description)
            &&& m.field("layers"@).items().len() == r.layers.len()
            &&& 0 <= i < r.layers.len() ==> m.field("layers"@).items()[i] == layer_tree(
                r.layers[i],
            )
        }),
{
    broadcast use {lemma_with_field, lemma_with_object};

    reveal_strlit("meta");
    reveal_strlit("music");
    assert("meta"@.len() == 4 && "music"@.len() == 5);
    assert(recipe_tree(r).field("music"@) == music_tree(r));
    reveal_strlit("id");
    reveal_strlit("pageUuid");
    reveal_strlit("tags");
    reveal_strlit("description");
    reveal_strlit("layers");
    assert("id"@.len() == 2 && "pageUuid"@.len() == 8 && "tags"@.len() == 4);
    assert("description"@.len() == 11 && "layers"@.len() == 6);
}

/// What the document of a layer says: its number, its formula, its factors, and
/// each constant with its name.
pub proof fn layer_documents_hold_their_values(l: LayerView)
    ensures
        ({
            let t = layer_tree(l);
            let f = t.field("formula"@);
            &&& t.field("layer"@) == whole_tree(l.layer as u64)
            &&& t.field("balancerIncludeFactors"@) == reals_tree(l.balancer_include_factors)
            &&& f.field("type"@) == JsonTree::Text(l.formula_type)
            &&& f.field("moodFactors"@) == reals_tree(l.mood_factors)
            &&& f.field("constantValues"@) == reals_tree(l.constant_values)
            &&& f.field("constantNames"@) == names_tree()
        }),
{
    broadcast use {lemma_with_field, lemma_with_object};

    reveal_strlit("layer");
    reveal_strlit("formula");
    reveal_strlit("balancerIncludeFactors");
    assert("layer"@.len() == 5 && "formula"@.len() == 7);
    assert("balancerIncludeFactors"@.len() == 22);
    assert(layer_tree(l).field("formula"@) == formula_tree(l));
    reveal_strlit("type");
    reveal_strlit("moodFactors");
    reveal_strlit("constantNames");
    reveal_strlit("constantValues");
    assert("type"@.len() == 4 && "moodFactors"@.len() == 11);
    assert("constantNames"@.len() == 13 && "constantValues"@.len() == 14);
}

/// The constants are named in the order of their values, and values are written
/// one by one.
pub proof fn constants_are_named_in_order(v: Seq<Real32>, i: int)
    ensures
        names_tree().items().len() == 5,
        names_tree().items()[0] == JsonTree::Text("s"@),
        names_tree().items()[1] == JsonTree::Text("d"@),
        names_tree().items()[2] == JsonTree::Text("min"@),
        names_tree().items()[3] == JsonTree::Text("max"@),
        names_tree().items()[4] == JsonTree::Text("lo"@),
        reals_tree(v).items().len() == v.len(),
        0 <= i < v.len() ==> reals_tree(v).items()[i] == real_tree(v[i]),
{
}

// Time stamps.

/// How many leap years there are up to `y`.
pub open spec fn leap_years(y: int) -> int {
    y / 4 - y / 100 + y / 400
}

/// A year has 365 days and each leap year one more: every fourth, but of the
/// hundreds only every fourth.
pub proof fn years_have_their_days(y: int)
    requires
        y >= 1970,
    ensures
        days_to_year(y) == 365 * (y - 1970) + leap_years(y - 1) - leap_years(1969),
        year_days(y) == days_to_year(y + 1) - days_to_year(y),
        leap(y) <==> leap_years(y) == leap_years(y - 1) + 1,
    decreases y,
{
    lemma_leap(y);
    if y > 1970 {
        years_have_their_days(y - 1);
        lemma_leap(y - 1);
    }
}

proof fn lemma_leap(y: int)
    requires
        y > 0,
    ensures
        leap_years(y) == leap_years(y - 1) + (if leap(y) {
            1int
        } else {
            0int
        }),
{
    assert(y / 4 == (y - 1) / 4 + (if y % 4 == 0 {
        1int
    } else {
        0int
    }));
    assert(y / 100 == (y - 1) / 100 + (if y % 100 == 0 {
        1int
    } else {
        0int
    }));
    assert(y / 400 == (y - 1) / 400 + (if y % 400 == 0 {
        1int
    } else {
        0int
    }));
    assert(y % 400 == 0 ==> y % 100 == 0);
    assert(y % 100 == 0 ==> y % 4 == 0);
}

/// The months have 31 and 30 days in turn, once from January and again from
/// August on, but for February. Together they make the year.
pub proof fn months_have_their_days(y: int, m: int)
    requires
        1 <= m <= 12,
    ensures
        m != 2 ==> month_days(y, m) == 30 + (m + m / 8) % 2,
        month_days(y, 2) == if leap(y) {
            29int
        } else {
            28
        },
        month_days(y, m) == days_to_month(y, m + 1) - days_to_month(y, m),
        days_to_month(y, 1) == 0,
        days_to_month(y, 13) == year_days(y),
{
    lemma_months_make_year(y);
}

/// Noon is as far from the start of its day as from that of the next: a day has
/// 24 hours of 60 minutes of 60 seconds.
pub proof fn days_have_their_seconds(p: (u64, u64, u64, u64, u64, u64))
    requires
        is_date(p),
    ensures
        ({
            let midnight = (p.0, p.1, p.2, 0u64, 0u64, 0u64);
            &&& seconds_to(p) == seconds_to(midnight) + p.3 * 3600 + p.4 * 60 + p.5
            &&& p.2 < month_days(p.0 as int, p.1 as int) ==> seconds_to(
                (p.0, p.1, (p.2 + 1) as u64, 0u64, 0u64, 0u64),
            ) == seconds_to(midnight) + 86400
            &&& p.2 == month_days(p.0 as int, p.1 as int) && p.1 < 12 ==> seconds_to(
                (p.0, (p.1 + 1) as u64, 1u64, 0u64, 0u64, 0u64),
            ) == seconds_to(midnight) + 86400
            &&& p.2 == 31 && p.1 == 12 && p.0 < u64::MAX ==> seconds_to(
                ((p.0 + 1) as u64, 1u64, 1u64, 0u64, 0u64, 0u64),
            ) == seconds_to(midnight) + 86400
            &&& seconds_to((1970u64, 1u64, 1u64, 0u64, 0u64, 0u64)) == 0
        }),
{
    if p.1 == 12 {
        lemma_months_make_year(p.0 as int);
    }
}

/// A time stamp has the date, a "T", the time of day, and that it is in UTC, all
/// in their digits.
pub proof fn time_stamps_read_as_their_date(p: (u64, u64, u64, u64, u64, u64))
    requires
        is_date(p),
        p.0 <= 9999,
    ensures
        ({
            let s = date_text(p);
            &&& s.len() == 25
            &&& digits_value(s.subrange(0, 4)) == p.0 && s[4] == '-'
            &&& digits_value(s.subrange(5, 7)) == p.1 && s[7] == '-'
            &&& digits_value(s.subrange(8, 10)) == p.2 && s[10] == 'T'
            &&& digits_value(s.subrange(11, 13)) == p.3 && s[13] == ':'
            &&& digits_value(s.subrange(14, 16)) == p.4 && s[16] == ':'
            &&& digits_value(s.subrange(17, 19)) == p.5
            &&& s.skip(19) == "+00:00"@
        }),
{
    reveal_strlit("-");
    reveal_strlit("T");
    reveal_strlit(":");
    reveal_strlit("+00:00");
    lemma_four_digits(p.0 as nat);
    lemma_two_digits(p.1 as nat);
    lemma_two_digits(p.2 as nat);
    lemma_two_digits(p.3 as nat);
    lemma_two_digits(p.4 as nat);
    lemma_two_digits(p.5 as nat);
    let s = date_text(p);
    assert(s.subrange(0, 4) =~= padded(p.0 as nat, 4));
    assert(s.subrange(5, 7) =~= padded(p.1 as nat, 2));
    assert(s.subrange(8, 10) =~= padded(p.2 as nat, 2));
    assert(s.subrange(11, 13) =~= padded(p.3 as nat, 2));
    assert(s.subrange(14, 16) =~= padded(p.4 as nat, 2));
    assert(s.subrange(17, 19) =~= padded(p.5 as nat, 2));
    assert(s.skip(19) =~= "+00:00"@);
}

proof fn lemma_two_digits(n: nat)
    requires
        n < 100,
    ensures
        padded(n, 2).len() == 2,
        digits_value(padded(n, 2)) == n,
{
    padding_keeps_the_number(n, n, 2);
    reveal_with_fuel(crate::text::decimal_text, 3);
}

proof fn lemma_four_digits(n: nat)
    requires
        n < 10000,
    ensures
        padded(n, 4).len() == 4,
        digits_value(padded(n, 4)) == n,
{
    padding_keeps_the_number(n, n, 4);
    reveal_with_fuel(crate::text::decimal_text, 5);
}

// Reading models.

/// A document is refused where it has no content, no module, or a module
/// without an identity, and only there.
pub proof fn models_need_a_module(doc: JsonTree)
    ensures
        model_of(doc) is Ok ==> doc.field("content"@) is Array && exists|i: int|
            0 <= i < doc.field("content"@).items().len() && typed("module"@)(
                #[trigger] doc.field("content"@).items()[i],
            ),
        !(doc.field("content"@) is Array) ==> model_of(doc) == Err::<
            crate::asset::wlamodel::ModelFound,
            Seq<char>,
        >("missing content"@),
        doc.field("content"@) is Array && (forall|i: int|
            0 <= i < doc.field("content"@).items().len() ==> !typed("module"@)(
                #[trigger] doc.field("content"@).items()[i],
            )) ==> model_of(doc) == Err::<crate::asset::wlamodel::ModelFound, Seq<char>>(
            "missing module"@,
        ),
{
    let items = doc.field("content"@).items();
    lemma_first_index_found(items, typed("module"@));
}

/// The data of an item that is a pattern with the identity `uuid`.
pub open spec fn is_pattern(item: JsonTree, uuid: Seq<char>) -> bool {
    item.field("type"@) == JsonTree::Text("pattern"@) && item.field("data"@).field(
        "uuid"@,
    ).text_or_empty() == uuid
}

/// The section is what an item of the content says.
pub open spec fn section_says(s: SectionFound, item: JsonTree) -> bool {
    let d = item.field("data"@);
    &&& s.pattern_id == d.field("id"@).text_or_empty()
    &&& s.len_frames == pattern_length(d)
    &&& s.in_regions == d.field("inRegions"@).items().map_values(in_region_of())
    &&& s.out_regions == d.field("outRegions"@).items().map_values(out_region_of())
}

/// A section is found by the identity of its mix: it is the last pattern of the
/// content with that identity, and where there is none, no section is found.
pub proof fn sections_are_found_by_their_mix(
    items: Seq<JsonTree>,
    mappings: Seq<(Seq<char>, Seq<Seq<char>>)>,
    kind: SectionKind,
    uuid: Seq<char>,
    i: int,
)
    ensures
        ({
            let r = section_of(kind, picked(items, pattern_of()), mappings)(uuid);
            &&& r matches Some(s) ==> s.kind == kind
            &&& 0 <= i < items.len() && is_pattern(items[i], uuid) && (forall|j: int|
                i < j < items.len() ==> !is_pattern(#[trigger] items[j], uuid)) ==> (
            r matches Some(s) && section_says(s, items[i]) && s.layer_ids == layers_of(
                mappings,
                s.pattern_id,
            ))
            &&& (forall|j: int| 0 <= j < items.len() ==> !is_pattern(#[trigger] items[j], uuid))
                ==> r is None
        }),
{
    let p = picked(items, pattern_of());
    let f = pattern_named(uuid);
    if 0 <= i < items.len() && is_pattern(items[i], uuid) && (forall|j: int|
        i < j < items.len() ==> !is_pattern(#[trigger] items[j], uuid)) {
        lemma_last_picked(items, uuid, i);
    }
    if forall|j: int| 0 <= j < items.len() ==> !is_pattern(#[trigger] items[j], uuid) {
        lemma_none_picked(items, uuid);
        if last_index(p, f) is Some {
            let k = choose|k: int| is_last(p, f, k);
            assert(f(p[k]));
        }
    }
}

proof fn lemma_none_picked(items: Seq<JsonTree>, uuid: Seq<char>)
    requires
        forall|j: int| 0 <= j < items.len() ==> !is_pattern(#[trigger] items[j], uuid),
    ensures
        ({
            let p = picked(items, pattern_of());
            forall|k: int| 0 <= k < p.len() ==> !pattern_named(uuid)(#[trigger] p[k])
        }),
    decreases items.len(),
{
    if items.len() > 0 {
        let t = items.drop_last();
        assert forall|j: int| 0 <= j < t.len() implies !is_pattern(#[trigger] t[j], uuid) by {
            assert(t[j] == items[j]);
        }
        lemma_none_picked(t, uuid);
        let x = items[items.len() - 1];
        assert(!is_pattern(x, uuid));
        let (p, q) = (picked(items, pattern_of()), picked(t, pattern_of()));
        assert forall|k: int| 0 <= k < p.len() implies !pattern_named(uuid)(#[trigger] p[k]) by {
            if k < q.len() {
                assert(p[k] == q[k]);
            } else {
                assert(pattern_of()(x) == Some(p[k]));
            }
        }
    }
}

proof fn lemma_last_picked(items: Seq<JsonTree>, uuid: Seq<char>, i: int)
    requires
        0 <= i < items.len(),
        is_pattern(items[i], uuid),
        forall|j: int| i < j < items.len() ==> !is_pattern(#[trigger] items[j], uuid),
    ensures
        ({
            let p = picked(items, pattern_of());
            last_index(p, pattern_named(uuid)) matches Some(k) && 0 <= k < p.len() && Some(p[k])
                == pattern_of()(items[i])
        }),
{
    let f = pattern_of();
    let (a, b) = (items.take(i + 1), items.skip(i + 1));
    let p = picked(items, f);
    lemma_picked_append(a, b, f);
    assert(items =~= a + b);
    lemma_picked_take(items, f, i);
    assert forall|j: int| 0 <= j < b.len() implies !is_pattern(#[trigger] b[j], uuid) by {
        assert(b[j] == items[i + 1 + j]);
    }
    lemma_none_picked(b, uuid);
    let k = picked(items.take(i), f).len() as int;
    assert(Some(p[k]) == f(items[i]));
    assert(is_last(p, pattern_named(uuid), k)) by {
        assert forall|j: int| k < j < p.len() implies !pattern_named(uuid)(#[trigger] p[j]) by {
            assert(p[j] == picked(b, f)[j - k - 1]);
        }
    }
    lemma_last_index(p, pattern_named(uuid), k);
}

/// The layers of a mix are those of the first entry that names it; without one
/// it has none.
pub proof fn layers_are_those_of_the_first_entry(
    mappings: Seq<(Seq<char>, Seq<Seq<char>>)>,
    id: Seq<char>,
    i: int,
)
    ensures
        0 <= i < mappings.len() && mappings[i].0 == id && (forall|j: int|
            0 <= j < i ==> (#[trigger] mappings[j]).0 != id) ==> layers_of(mappings, id)
            == mappings[i].1,
        (forall|j: int| 0 <= j < mappings.len() ==> (#[trigger] mappings[j]).0 != id) ==> layers_of(
            mappings,
            id,
        ).len() == 0,
{
    lemma_first_index_found(mappings, mapping_named(id));
    if let Some(k) = first_index(mappings, mapping_named(id)) {
        assert(mappings[k].0 == id);
        if 0 <= i < mappings.len() && mappings[i].0 == id && (forall|j: int|
            0 <= j < i ==> (#[trigger] mappings[j]).0 != id) {
            assert(mapping_named(id)(mappings[i]));
            assert(!(k < i));
            assert(!(i < k));
        }
    } else if 0 <= i < mappings.len() {
        assert(!mapping_named(id)(mappings[i]));
    }
}

/// Some of the references is to what `f` gives as `x`.
pub open spec fn names<R>(refs: Seq<JsonTree>, f: spec_fn(Seq<char>) -> Option<R>, x: R) -> bool {
    exists|j: int|
        0 <= j < refs.len() && ((#[trigger] refs[j]).field("uuref"@).text() matches Some(u) && f(u)
            == Some(x))
}

/// A module names its Intros first, then its Mains, then its Outros, each list
/// under its own name. What names nothing that is there is passed over.
pub proof fn modules_name_their_sections(items: Seq<JsonTree>, module: JsonTree, i: int)
    requires
        0 <= i < module_sections(items, module).len(),
    ensures
        ({
            let s = module_sections(items, module);
            let f = section_of(
                s[i].kind,
                picked(items, pattern_of()),
                picked(module.field("layerMappings"@).items(), mapping_of()),
            );
            &&& match s[i].kind {
                SectionKind::Intro => names(module.field("introPatterns"@).items(), f, s[i]),
                SectionKind::Main => names(module.field("mainPatterns"@).items(), f, s[i]),
                SectionKind::Outro => names(module.field("outroPatterns"@).items(), f, s[i]),
            }
            &&& forall|j: int| 0 <= j < i ==> (#[trigger] s[j]).kind.order() <= s[i].kind.order()
        }),
{
    let patterns = picked(items, pattern_of());
    let mappings = picked(module.field("layerMappings"@).items(), mapping_of());
    let f = text_in("uuref"@);
    let x = module.field("introPatterns"@).items();
    let y = module.field("mainPatterns"@).items();
    let z = module.field("outroPatterns"@).items();
    let (g, h, o) = (
        section_of(SectionKind::Intro, patterns, mappings),
        section_of(SectionKind::Main, patterns, mappings),
        section_of(SectionKind::Outro, patterns, mappings),
    );
    let (a, b, c) = (picked(picked(x, f), g), picked(picked(y, f), h), picked(picked(z, f), o));
    let s = module_sections(items, module);
    assert(s == a + b + c);
    lemma_kinds(a, picked(x, f), g, SectionKind::Intro, patterns, mappings);
    lemma_kinds(b, picked(y, f), h, SectionKind::Main, patterns, mappings);
    lemma_kinds(c, picked(z, f), o, SectionKind::Outro, patterns, mappings);
    if i < a.len() {
        assert(s[i] == a[i]);
        lemma_where_from(x, f, g, i);
    } else if i < a.len() + b.len() {
        assert(s[i] == b[i - a.len()]);
        lemma_where_from(y, f, h, i - a.len());
    } else {
        assert(s[i] == c[i - a.len() - b.len()]);
        lemma_where_from(z, f, o, i - a.len() - b.len());
    }
}

proof fn lemma_kinds(
    r: Seq<SectionFound>,
    uuids: Seq<Seq<char>>,
    f: spec_fn(Seq<char>) -> Option<SectionFound>,
    kind: SectionKind,
    patterns: Seq<PatternFound>,
    mappings: Seq<(Seq<char>, Seq<Seq<char>>)>,
)
    requires
        f == section_of(kind, patterns, mappings),
        r == picked(uuids, f),
    ensures
        forall|i: int| 0 <= i < r.len() ==> (#[trigger] r[i]).kind == kind,
{
    assert forall|i: int| 0 <= i < r.len() implies (#[trigger] r[i]).kind == kind by {
        lemma_picked_from(uuids, f, i);
        let j = choose|j: int| 0 <= j < uuids.len() && f(#[trigger] uuids[j]) == Some(r[i]);
        assert(f(uuids[j]) is Some);
    }
}

proof fn lemma_picked_from<T, R>(s: Seq<T>, f: spec_fn(T) -> Option<R>, i: int)
    requires
        0 <= i < picked(s, f).len(),
    ensures
        exists|j: int| 0 <= j < s.len() && f(#[trigger] s[j]) == Some(picked(s, f)[i]),
    decreases s.len(),
{
    let t = s.drop_last();
    if i < picked(t, f).len() {
        lemma_picked_from(t, f, i);
        let j = choose|j: int| 0 <= j < t.len() && f(#[trigger] t[j]) == Some(picked(t, f)[i]);
        assert(s[j] == t[j]);
    } else {
        assert(f(s[s.len() - 1]) == Some(picked(s, f)[i]));
    }
}

proof fn lemma_where_from<R>(
    s: Seq<JsonTree>,
    f: spec_fn(JsonTree) -> Option<Seq<char>>,
    g: spec_fn(Seq<char>) -> Option<R>,
    i: int,
)
    requires
        f == text_in("uuref"@),
        0 <= i < picked(picked(s, f), g).len(),
    ensures
        names(s, g, picked(picked(s, f), g)[i]),
{
    let p = picked(s, f);
    lemma_picked_from(p, g, i);
    let k = choose|k: int| 0 <= k < p.len() && g(#[trigger] p[k]) == Some(picked(p, g)[i]);
    lemma_picked_from(s, f, k);
    let j = choose|j: int| 0 <= j < s.len() && f(#[trigger] s[j]) == Some(p[k]);
    assert(s[j].field("uuref"@).text() == Some(p[k]));
}

/// A pattern is as long as its loop, and as it says itself where it does not
/// loop.
pub proof fn patterns_are_as_long_as_their_loop(d: JsonTree)
    ensures
        ({
            let end = d.field("loop"@).field("end"@).whole_or_zero();
            &&& end > 0 ==> pattern_length(d) == end
            &&& end == 0 ==> pattern_length(d) == d.field("length"@).whole_or_zero()
        }),
{
}

/// What a region leaves out is nothing, but for the shape of its fade, which is
/// straight. An in-region is in sync at its end, an out-region at its begin, and
/// in all else they are read alike.
pub proof fn regions_are_read_with_defaults(t: JsonTree)
    ensures
        ({
            let (a, b) = (in_region_of()(t), out_region_of()(t));
            &&& a.sync_frames == a.end_frames && b.sync_frames == b.begin_frames
            &&& a.begin_frames == b.begin_frames && a.end_frames == b.end_frames
            &&& a.fade_pct == b.fade_pct && a.fade_shape == b.fade_shape && a.group == b.group
            &&& !t.has("begin"@) ==> a.begin_frames == 0
            &&& !t.has("end"@) ==> a.end_frames == 0
            &&& !t.has("group"@) ==> a.group == 0
            &&& !t.has("fadePercentage"@) ==> a.fade_pct == (Real32 { bits: ZERO_BITS })
            &&& !t.has("fadeShape"@) ==> a.fade_shape == (Real32 { bits: HALF_BITS })
            &&& t.field("begin"@) == whole_tree(a.begin_frames) || a.begin_frames == 0
            &&& t.field("end"@) == whole_tree(a.end_frames) || a.end_frames == 0
        }),
{
}

/// What is not there reads as null, and what is of another kind as nothing.
pub proof fn other_kinds_read_as_nothing(t: JsonTree, key: Seq<char>, other: Real32)
    ensures
        !(t is Object) ==> t.field(key) is Null && !t.has(key),
        !t.has(key) ==> t.field(key) is Null,
        !(t is Array) ==> t.items().len() == 0,
        !(t is Text) ==> t.text() is None && t.text_or_empty().len() == 0,
        t matches JsonTree::Text(s) ==> t.text() == Some(s) && t.text_or_empty() == s,
        !(t is Number) ==> t.whole_or_zero() == 0 && t.real_or(other) == other,
        forall|n: u64| (#[trigger] whole_tree(n)).whole_or_zero() == n,
{
}

} // verus!
