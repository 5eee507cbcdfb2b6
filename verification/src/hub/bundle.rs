//! Asset bundles: the names in them when one is saved, and what their names
//! tell when one is brought in.
use vstd::prelude::*;

use vstd::seq_lib::group_to_multiset_ensures;

use crate::asset::model_laws::section_again;
use crate::asset::model_laws::sections_read_back;
use crate::asset::wlamodel::clip_name;
use crate::asset::wlamodel::clip_path;
use crate::asset::wlamodel::clone_texts;
use crate::asset::wlamodel::regions_kept;
use crate::asset::wlamodel::texts;
use crate::asset::wlamodel::ParsedSection;
use crate::asset::wlamodel::SectionFound;
use crate::asset::wlamodel::SectionPlan;
use crate::asset::wlamodel::SectionSpec;
use crate::export::stem_count;
use crate::hub::takes::copy_regions;
use crate::hub::takes::SectionTake;
use crate::hub::takes::SectionTakeView;
use crate::navigator::model::AssetMeta;
use crate::navigator::model::AssetMetaView;
use crate::navigator::model::AssetType;
use crate::navigator::model::Region;
use crate::navigator::model::SectionKind;
use crate::number::Real32;
use crate::number::ZERO_BITS;
use crate::seqs::is_last;
use crate::seqs::last_index;
use crate::seqs::lemma_last_index;
use crate::seqs::lemma_only_match;
use crate::text::blank;
use crate::text::chars_of;
use crate::text::decimal;
use crate::text::decimal_text;
use crate::text::is_blank;
use crate::text::is_digit;
use crate::text::join;
use crate::text::lemma_decimal_reads;
use crate::text::number_text;
use crate::text::read_number;
use crate::text::same;
use crate::text::text_of;
use crate::text::trim;
use crate::text::trimmed;
use crate::text::without_plus;

verus! {

/// The production code of a bundle: that of the asset, or else the name of the
/// session, without white space around it.
pub open spec fn code_of(meta: AssetMetaView, session_name: Seq<char>) -> Option<Seq<char>> {
    if !blank(meta.production_code) {
        Some(trimmed(meta.production_code))
    } else if !blank(session_name) {
        Some(trimmed(session_name))
    } else {
        None
    }
}

/// The header of a bundle: a variant that has no name is named by the code.
pub open spec fn bundle_meta(meta: AssetMetaView, code: Seq<char>) -> AssetMetaView {
    let variant = if blank(meta.variant_name) {
        code
    } else {
        trimmed(meta.variant_name)
    };
    AssetMetaView {
        production_code: code,
        variant_name: variant,
        asset_name: variant,
        asset_type: AssetType::Music,
        description: meta.description,
        tags: meta.tags,
    }
}

/// The header of the bundle that is saved; none where neither the asset nor
/// the session has a name.
pub fn resolve_meta(meta: &AssetMeta, session_name: &str) -> (r: Option<AssetMeta>)
    ensures
        match code_of(meta@, session_name@) {
            Some(code) => r matches Some(m) && m@ == bundle_meta(meta@, code),
            None => r is None,
        },
{
    let code = if !is_blank(meta.production_code.as_str()) {
        trim(meta.production_code.as_str())
    } else if !is_blank(session_name) {
        trim(session_name)
    } else {
        return None;
    };
    let variant = if is_blank(meta.variant_name.as_str()) {
        code.clone()
    } else {
        trim(meta.variant_name.as_str())
    };
    let mut m = meta.clone();
    m.production_code = code;
    m.asset_name = variant.clone();
    m.variant_name = variant;
    m.asset_type = AssetType::Music;
    Some(m)
}

/// The folder of a bundle: its code and its variant.
pub open spec fn folder_text(meta: AssetMetaView) -> Seq<char> {
    meta.production_code + " - "@ + meta.variant_name + "_TT"@
}

/// The file of a bundle's sound.
pub open spec fn bank_text(code: Seq<char>) -> Seq<char> {
    code + ".wlabank"@
}

/// The file of a bundle's sections.
pub open spec fn model_text(code: Seq<char>) -> Seq<char> {
    code + ".wlamodel"@
}

/// The folder of a bundle.
pub fn bundle_folder(meta: &AssetMeta) -> (r: String)
    ensures
        r@ == folder_text(meta@),
{
    let mut s = join(meta.production_code.as_str(), " - ");
    s.append(meta.variant_name.as_str());
    s.append("_TT");
    s
}

/// The file of a bundle's sound.
pub fn bank_file(code: &str) -> (r: String)
    ensures
        r@ == bank_text(code@),
{
    join(code, ".wlabank")
}

/// The file of a bundle's sections.
pub fn model_file(code: &str) -> (r: String)
    ensures
        r@ == model_text(code@),
{
    join(code, ".wlamodel")
}

/// The id of the mix of a section.
pub open spec fn mix_id(kind: SectionKind) -> Seq<char> {
    seq![kind.letter()] + "1"@
}

/// The id of a layer of a mix: its source, counted from one.
pub open spec fn layer_id_of(mix: Seq<char>, source: nat) -> Seq<char> {
    mix + "l"@ + decimal_text(source + 1)
}

/// The id of the mix of a section.
pub fn pattern_id(kind: SectionKind) -> (r: String)
    ensures
        r@ == mix_id(kind),
{
    let mut s = String::new();
    s.push(kind.pattern_letter());
    s.append("1");
    assert(s@ =~= mix_id(kind));
    s
}

/// The id of the layer of a source.
pub fn layer_id(mix: &str, source: usize) -> (r: String)
    ensures
        r@ == layer_id_of(mix@, source as nat),
{
    let mut s = join(mix, "l");
    s.append(decimal(source as u128 + 1).as_str());
    s
}

/// A clip that a bundle gets: its id, its name in the bank, and the buffer of
/// the take that it holds; none for the mix of all of them.
#[derive(Debug)]
pub struct ClipPlan {
    pub id: String,
    pub name: String,
    pub buffer: Option<usize>,
}

/// The contents of a [`ClipPlan`].
#[verifier::ext_equal]
pub struct ClipPlanView {
    pub id: Seq<char>,
    pub name: Seq<char>,
    pub buffer: Option<usize>,
}

impl View for ClipPlan {
    type V = ClipPlanView;

    open spec fn view(&self) -> ClipPlanView {
        ClipPlanView { id: self.id@, name: self.name@, buffer: self.buffer }
    }
}

/// What a section puts into a bundle.
#[derive(Debug)]
pub struct SectionBundle {
    pub kind: SectionKind,
    /// The id of the mix.
    pub mix: String,
    pub len_frames: u64,
    /// The mix and the layers behind it.
    pub clips: Vec<ClipPlan>,
    pub layer_ids: Vec<String>,
}

/// The contents of a [`SectionBundle`].
#[verifier::ext_equal]
pub struct SectionBundleView {
    pub kind: SectionKind,
    pub mix: Seq<char>,
    pub len_frames: u64,
    pub clips: Seq<ClipPlanView>,
    pub layer_ids: Seq<Seq<char>>,
}

impl View for SectionBundle {
    type V = SectionBundleView;

    open spec fn view(&self) -> SectionBundleView {
        SectionBundleView {
            kind: self.kind,
            mix: self.mix@,
            len_frames: self.len_frames,
            clips: self.clips@.map_values(|c: ClipPlan| c@),
            layer_ids: texts(self.layer_ids@),
        }
    }
}

/// A clip of a bank.
pub open spec fn clip_of(bank: Seq<char>, id: Seq<char>, buffer: Option<usize>) -> ClipPlanView {
    ClipPlanView { id, name: clip_path(bank, id), buffer }
}

/// The ids of the first `n` layers of a section.
pub open spec fn layer_ids_of(kind: SectionKind, armed: Seq<usize>, n: nat) -> Seq<Seq<char>> {
    Seq::new(n, |i: int| layer_id_of(mix_id(kind), armed[i] as nat))
}

/// The mix of a section and its first `n` layers.
pub open spec fn clips_of(
    kind: SectionKind,
    bank: Seq<char>,
    armed: Seq<usize>,
    n: nat,
) -> Seq<ClipPlanView> {
    seq![clip_of(bank, mix_id(kind), None)] + Seq::new(
        n,
        |i: int| clip_of(bank, layer_id_of(mix_id(kind), armed[i] as nat), Some(i as usize)),
    )
}

/// What a section of `len` frames puts into a bundle: its mix, and a layer for
/// each armed source that has a buffer.
pub open spec fn section_bundle(
    kind: SectionKind,
    bank: Seq<char>,
    armed: Seq<usize>,
    buffers: nat,
    len: u64,
) -> SectionBundleView {
    let n = stem_count(armed.len(), buffers);
    SectionBundleView {
        kind,
        mix: mix_id(kind),
        len_frames: len,
        clips: clips_of(kind, bank, armed, n),
        layer_ids: layer_ids_of(kind, armed, n),
    }
}

/// What a section of `len` frames puts into a bundle. `armed[i]` is the source
/// of buffer `i`.
pub fn plan_section(
    kind: SectionKind,
    bank: &str,
    armed: &Vec<usize>,
    buffers: usize,
    len: u64,
) -> (r: SectionBundle)
    ensures
        r@ == section_bundle(kind, bank@, armed@, buffers as nat, len),
{
    let mix = pattern_id(kind);
    let mut clips: Vec<ClipPlan> = Vec::new();
    let mut layer_ids: Vec<String> = Vec::new();
    clips.push(
        ClipPlan { id: pattern_id(kind), name: clip_name(bank, mix.as_str()), buffer: None },
    );
    let mut i: usize = 0;
    assert(clips@.map_values(|c: ClipPlan| c@) =~= clips_of(kind, bank@, armed@, 0));
    assert(texts(layer_ids@) =~= layer_ids_of(kind, armed@, 0));
    while i < armed.len() && i < buffers
        invariant
            0 <= i <= armed@.len(),
            i <= buffers,
            mix@ == mix_id(kind),
            clips@.map_values(|c: ClipPlan| c@) == clips_of(kind, bank@, armed@, i as nat),
            texts(layer_ids@) == layer_ids_of(kind, armed@, i as nat),
        decreases armed@.len() - i,
    {
        let ghost clips_before = clips@.map_values(|c: ClipPlan| c@);
        let ghost ids_before = texts(layer_ids@);
        let id = layer_id(mix.as_str(), armed[i]);
        let name = clip_name(bank, id.as_str());
        layer_ids.push(layer_id(mix.as_str(), armed[i]));
        clips.push(ClipPlan { id, name, buffer: Some(i) });
        assert(clips@.map_values(|c: ClipPlan| c@) =~= clips_before.push(clips@.last()@));
        assert(clips@.map_values(|c: ClipPlan| c@) =~= clips_of(
            kind,
            bank@,
            armed@,
            (i + 1) as nat,
        ));
        assert(texts(layer_ids@) =~= ids_before.push(layer_ids@.last()@));
        assert(texts(layer_ids@) =~= layer_ids_of(kind, armed@, (i + 1) as nat));
        i += 1;
    }
    SectionBundle { kind, mix, len_frames: len, clips, layer_ids }
}

/// The section of a bundle as the model has it, with the regions of its take.
pub open spec fn section_plan(
    b: SectionBundleView,
    bank: Seq<char>,
    take: SectionTakeView,
) -> SectionPlan {
    SectionPlan {
        kind: b.kind,
        pattern_id: b.mix,
        len_frames: b.len_frames,
        bank_name: bank,
        in_regions: take.in_regions,
        out_regions: take.out_regions,
        layer_ids: b.layer_ids,
    }
}

/// The section of a bundle as the model has it.
pub fn section_spec<'a>(b: &'a SectionBundle, bank: &'a str, take: &'a SectionTake) -> (r:
    SectionSpec<'a>)
    ensures
        r@ == section_plan(b@, bank@, take@),
{
    SectionSpec {
        kind: b.kind,
        pattern_id: b.mix.as_str(),
        len_frames: b.len_frames,
        bank_name: bank,
        in_regions: take.in_regions.as_slice(),
        out_regions: take.out_regions.as_slice(),
        layer_ids: clone_texts(&b.layer_ids),
    }
}

// Reading names.

/// What stands behind the last `c` of a text; all of it where there is none.
pub open spec fn after_last(s: Seq<char>, c: char) -> Seq<char>
    decreases s.len(),
{
    if s.len() == 0 || s.last() == c {
        Seq::empty()
    } else {
        after_last(s.drop_last(), c).push(s.last())
    }
}

proof fn lemma_after_last(s: Seq<char>, c: char, n: int)
    requires
        0 <= n <= s.len(),
        forall|i: int| n <= i < s.len() ==> #[trigger] s[i] != c,
        n == 0 || s[n - 1] == c,
    ensures
        after_last(s, c) == s.subrange(n, s.len() as int),
    decreases s.len() - n,
{
    if n < s.len() {
        let t = s.drop_last();
        assert(s[s.len() - 1] != c);
        assert forall|i: int| n <= i < t.len() implies #[trigger] t[i] != c by {
            assert(s[i] != c);
        }
        lemma_after_last(t, c, n);
        assert(t.subrange(n, t.len() as int).push(s.last()) =~= s.subrange(n, s.len() as int));
    } else {
        assert(s.subrange(n, n) =~= Seq::empty());
    }
}

fn place_after_last(v: &Vec<char>, c: char) -> (r: usize)
    ensures
        r <= v@.len(),
        v@.subrange(r as int, v@.len() as int) == after_last(v@, c),
{
    let mut n: usize = v.len();
    while n > 0 && v[n - 1] != c
        invariant
            0 <= n <= v@.len(),
            forall|i: int| n <= i < v@.len() ==> #[trigger] v@[i] != c,
        decreases n,
    {
        n -= 1;
    }
    proof {
        lemma_after_last(v@, c, n as int);
    }
    n
}

/// The id in the name of a clip: what stands behind its last slash.
pub fn clip_id(name: &str) -> (r: String)
    ensures
        r@ == after_last(name@, '/'),
{
    let v = chars_of(name);
    let n = place_after_last(&v, '/');
    text_of(&v, n, v.len())
}

/// The source that the id of a layer tells: the number behind its last "l",
/// counted from one; the first where there is no number.
pub open spec fn source_of(id: Seq<char>) -> int {
    match number_text(after_last(id, 'l'), usize::MAX as int) {
        Some(n) => if n == 0 {
            0
        } else {
            n - 1
        },
        None => 0,
    }
}

/// The source that the id of a layer tells.
pub fn layer_source(id: &str) -> (r: usize)
    ensures
        r == source_of(id@),
{
    let v = chars_of(id);
    let n = place_after_last(&v, 'l');
    match read_number(&v, n, usize::MAX as u64) {
        Some(n) => if n == 0 {
            0
        } else {
            (n - 1) as usize
        },
        None => 0,
    }
}

/// The text is `id`.
pub open spec fn is_id(id: Seq<char>) -> spec_fn(Seq<char>) -> bool {
    |c: Seq<char>| c == id
}

/// The last of the clips with the id `id`.
fn last_clip(clips: &Vec<String>, id: &str) -> (r: Option<usize>)
    ensures
        match r {
            Some(i) => last_index(texts(clips@), is_id(id@)) == Some(i as int),
            None => last_index(texts(clips@), is_id(id@)) is None,
        },
{
    let ghost all = texts(clips@);
    let ghost p = is_id(id@);
    let mut i: usize = clips.len();
    while i > 0
        invariant
            0 <= i <= clips@.len(),
            all == texts(clips@),
            p == is_id(id@),
            forall|j: int| i <= j < all.len() ==> !p(#[trigger] all[j]),
        decreases i,
    {
        i -= 1;
        assert(all[i as int] == clips@[i as int]@);
        if same(clips[i].as_str(), id) {
            proof {
                assert(is_last(all, p, i as int));
                lemma_last_index(all, p, i as int);
            }
            return Some(i);
        }
    }
    None
}

/// The first `n` layers, those for which there is a clip: the last clip of
/// their id, and the source that the id tells.
pub open spec fn layers_found(
    ids: Seq<Seq<char>>,
    clips: Seq<Seq<char>>,
    n: nat,
) -> Seq<(usize, usize)>
    decreases n,
{
    if n == 0 {
        Seq::empty()
    } else {
        let before = layers_found(ids, clips, (n - 1) as nat);
        match last_index(clips, is_id(ids[n - 1])) {
            Some(c) => before.push((c as usize, source_of(ids[n - 1]) as usize)),
            None => before,
        }
    }
}

/// The layers of a section for which there is a clip: the clip, and the source
/// that it is written as. `clips` holds the ids of the clips that could be
/// decoded.
pub fn layers_to_write(ids: &Vec<String>, clips: &Vec<String>) -> (r: Vec<(usize, usize)>)
    ensures
        r@ == layers_found(texts(ids@), texts(clips@), ids@.len()),
{
    let ghost all = texts(ids@);
    let mut out: Vec<(usize, usize)> = Vec::new();
    let mut i: usize = 0;
    while i < ids.len()
        invariant
            0 <= i <= ids@.len(),
            all == texts(ids@),
            out@ == layers_found(all, texts(clips@), i as nat),
        decreases ids@.len() - i,
    {
        assert(all[i as int] == ids@[i as int]@);
        if let Some(c) = last_clip(clips, ids[i].as_str()) {
            out.push((c, layer_source(ids[i].as_str())));
        }
        i += 1;
    }
    out
}

/// The numbers in order, each as often as before.
pub open spec fn is_sorted_of(r: Seq<usize>, s: Seq<usize>) -> bool {
    &&& r.to_multiset() == s.to_multiset()
    &&& forall|i: int, j: int| 0 <= i < j < r.len() ==> #[trigger] r[i] <= #[trigger] r[j]
}

/// The numbers in order.
pub fn sort_sources(v: &Vec<usize>) -> (r: Vec<usize>)
    ensures
        is_sorted_of(r@, v@),
{
    let mut out: Vec<usize> = Vec::new();
    let mut i: usize = 0;
    assert(v@.take(0) =~= out@);
    while i < v.len()
        invariant
            0 <= i <= v@.len(),
            is_sorted_of(out@, v@.take(i as int)),
        decreases v@.len() - i,
    {
        let x: usize = v[i];
        let mut p: usize = out.len();
        while p > 0 && out[p - 1] > x
            invariant
                0 <= p <= out@.len(),
                forall|k: int| p <= k < out@.len() ==> x < #[trigger] out@[k],
            decreases p,
        {
            p -= 1;
        }
        let ghost before = out@;
        out.insert(p, x);
        proof {
            broadcast use group_to_multiset_ensures;

            let after = out@;
            assert(after.remove(p as int) =~= before);
            assert(after[p as int] == x);
            assert(after.contains(x));
            assert(after.to_multiset() =~= before.to_multiset().insert(x));
            assert(v@.take(i + 1) =~= v@.take(i as int).push(x));
            assert forall|a: int, b: int| 0 <= a < b < after.len() implies #[trigger] after[a]
                <= #[trigger] after[b] by {
                if p > 0 && a < p {
                    assert(before[a] <= before[p - 1] || a == p - 1);
                }
            }
        }
        i += 1;
    }
    assert(v@.take(i as int) =~= v@);
    out
}

/// The take of a section that was brought in, with these sources.
pub open spec fn brought_in(
    s: SectionFound,
    armed: Seq<usize>,
    time_sig: u32,
) -> SectionTakeView {
    SectionTakeView {
        armed,
        start_pulses: 0,
        bpm: Real32 { bits: ZERO_BITS },
        time_sig,
        user_offset_units: Real32 { bits: ZERO_BITS },
        in_regions: s.in_regions,
        out_regions: s.out_regions,
        loop_range: if s.kind == SectionKind::Main && s.len_frames > 0 {
            Some((0, s.len_frames))
        } else {
            None
        },
    }
}

/// The sources of written layers.
pub open spec fn sources_written(s: Seq<(usize, usize)>) -> Seq<usize> {
    s.map_values(|p: (usize, usize)| p.1)
}

/// The take of a section that was brought in, whose layers were written.
pub fn imported_take(section: &ParsedSection, written: &Vec<(usize, usize)>, time_sig: u32) -> (r:
    SectionTake)
    ensures
        is_sorted_of(r@.armed, sources_written(written@)),
        r@ == brought_in(section@, r@.armed, time_sig),
{
    let mut armed: Vec<usize> = Vec::new();
    let mut i: usize = 0;
    while i < written.len()
        invariant
            0 <= i <= written@.len(),
            armed@ =~= sources_written(written@.take(i as int)),
        decreases written@.len() - i,
    {
        armed.push(written[i].1);
        i += 1;
    }
    assert(written@.take(i as int) =~= written@);
    let loop_range = match section.kind {
        SectionKind::Main => if section.len_frames > 0 {
            Some((0, section.len_frames))
        } else {
            None
        },
        _ => None,
    };
    SectionTake {
        armed: sort_sources(&armed),
        start_pulses: 0,
        bpm: Real32 { bits: ZERO_BITS },
        time_sig,
        user_offset_units: Real32 { bits: ZERO_BITS },
        in_regions: copy_regions(&section.in_regions),
        out_regions: copy_regions(&section.out_regions),
        loop_range,
    }
}

// Laws.

proof fn lemma_after_last_of(a: Seq<char>, c: char, b: Seq<char>)
    requires
        forall|i: int| 0 <= i < b.len() ==> #[trigger] b[i] != c,
    ensures
        after_last(a.push(c) + b, c) == b,
{
    let s = a.push(c) + b;
    let n = a.len() + 1;
    assert forall|i: int| n <= i < s.len() implies #[trigger] s[i] != c by {
        assert(s[i] == b[i - n]);
    }
    lemma_after_last(s, c, n as int);
    assert(s.subrange(n as int, s.len() as int) =~= b);
}

/// The id of a layer tells its source.
pub proof fn layer_id_tells_source(mix: Seq<char>, source: usize)
    requires
        source < usize::MAX,
    ensures
        source_of(layer_id_of(mix, source as nat)) == source,
{
    reveal_strlit("l");
    let d = decimal_text((source + 1) as nat);
    lemma_decimal_reads((source + 1) as nat);
    assert forall|i: int| 0 <= i < d.len() implies #[trigger] d[i] != 'l' by {
        assert(is_digit(d[i]));
    }
    assert(layer_id_of(mix, source as nat) =~= mix.push('l') + d);
    lemma_after_last_of(mix, 'l', d);
    assert(is_digit(d[0]));
    assert(without_plus(d) == d);
}

/// The name of a clip tells its id, where that has no slash.
pub proof fn clip_name_tells_id(bank: Seq<char>, id: Seq<char>)
    requires
        forall|i: int| 0 <= i < id.len() ==> #[trigger] id[i] != '/',
    ensures
        after_last(clip_path(bank, id), '/') == id,
{
    reveal_strlit("/");
    assert(clip_path(bank, id) =~= ("module_"@ + bank).push('/') + id);
    lemma_after_last_of("module_"@ + bank, '/', id);
}

/// A layer keeps its id and its source from a bundle that is saved to one that
/// is brought in.
pub proof fn layers_come_back(bank: Seq<char>, kind: SectionKind, source: usize)
    requires
        source < usize::MAX,
    ensures
        ({
            let id = layer_id_of(mix_id(kind), source as nat);
            &&& after_last(clip_path(bank, id), '/') == id
            &&& source_of(id) == source
        }),
{
    reveal_strlit("l");
    reveal_strlit("1");
    let id = layer_id_of(mix_id(kind), source as nat);
    let d = decimal_text((source + 1) as nat);
    lemma_decimal_reads((source + 1) as nat);
    assert forall|i: int| 0 <= i < id.len() implies #[trigger] id[i] != '/' by {
        let m = mix_id(kind);
        if i >= m.len() + 1 {
            assert(id[i] == d[i - m.len() - 1]);
            assert(is_digit(d[i - m.len() - 1]));
        }
    }
    clip_name_tells_id(bank, id);
    layer_id_tells_source(mix_id(kind), source);
}

/// All layers of a section that was saved are found in a bundle that is brought
/// in, each in a clip of its own id, and give back the sources that were armed.
/// `clips` holds the ids that the names of the bank's clips tell, those of this
/// section among them.
pub proof fn saved_section_comes_back(
    kind: SectionKind,
    bank: Seq<char>,
    armed: Seq<usize>,
    len: u64,
    clips: Seq<Seq<char>>,
)
    requires
        forall|i: int| 0 <= i < armed.len() ==> #[trigger] armed[i] < usize::MAX,
        clips.len() <= usize::MAX,
        ({
            let b = section_bundle(kind, bank, armed, armed.len(), len);
            forall|i: int|
                0 <= i < b.clips.len() ==> clips.contains(
                    after_last(#[trigger] b.clips[i].name, '/'),
                )
        }),
    ensures
        ({
            let b = section_bundle(kind, bank, armed, armed.len(), len);
            let found = layers_found(b.layer_ids, clips, armed.len());
            &&& sources_written(found) == armed
            &&& forall|i: int|
                0 <= i < armed.len() ==> clips[(#[trigger] found[i]).0 as int] == b.layer_ids[i]
        }),
{
    lemma_layers_found(kind, bank, armed, len, clips, armed.len());
    let b = section_bundle(kind, bank, armed, armed.len(), len);
    assert(sources_written(layers_found(b.layer_ids, clips, armed.len())) =~= armed);
}

/// The regions have finite fades, which narrow back from what is written, and
/// are in sync where entries or exits are by themselves.
pub open spec fn plain_regions(s: Seq<Region>, entries: bool) -> bool {
    &&& regions_kept(s)
    &&& forall|i: int|
        0 <= i < s.len() ==> (#[trigger] s[i]).fade_pct.finite() && s[i].fade_shape.finite()
            && s[i].sync_frames == if entries {
            s[i].end_frames
        } else {
            s[i].begin_frames
        }
}

/// A take that was saved in a bundle comes back from it with its sources and
/// its regions. Main then loops over its whole length.
pub proof fn saved_take_comes_back(
    kind: SectionKind,
    bank: Seq<char>,
    t: SectionTakeView,
    len: u64,
    clips: Seq<Seq<char>>,
    back: Seq<usize>,
    time_sig: u32,
)
    requires
        forall|i: int| 0 <= i < t.armed.len() ==> #[trigger] t.armed[i] < usize::MAX,
        clips.len() <= usize::MAX,
        ({
            let b = section_bundle(kind, bank, t.armed, t.armed.len(), len);
            forall|i: int|
                0 <= i < b.clips.len() ==> clips.contains(
                    after_last(#[trigger] b.clips[i].name, '/'),
                )
        }),
        plain_regions(t.in_regions, true),
        plain_regions(t.out_regions, false),
        ({
            let b = section_bundle(kind, bank, t.armed, t.armed.len(), len);
            let found = section_again(section_plan(b, bank, t));
            is_sorted_of(
                back,
                sources_written(layers_found(found.layer_ids, clips, found.layer_ids.len())),
            )
        }),
    ensures
        ({
            let b = section_bundle(kind, bank, t.armed, t.armed.len(), len);
            let found = section_again(section_plan(b, bank, t));
            let r = brought_in(found, back, time_sig);
            &&& found.kind == kind
            &&& found.len_frames == len
            &&& is_sorted_of(r.armed, t.armed)
            &&& r.in_regions == t.in_regions
            &&& r.out_regions == t.out_regions
            &&& r.loop_range == if kind == SectionKind::Main && len > 0 {
                Some((0u64, len))
            } else {
                None
            }
        }),
{
    let b = section_bundle(kind, bank, t.armed, t.armed.len(), len);
    let p = section_plan(b, bank, t);
    saved_section_comes_back(kind, bank, t.armed, len, clips);
    sections_read_back(p);
    assert(section_again(p).in_regions =~= t.in_regions);
    assert(section_again(p).out_regions =~= t.out_regions);
}

proof fn lemma_layers_found(
    kind: SectionKind,
    bank: Seq<char>,
    armed: Seq<usize>,
    len: u64,
    clips: Seq<Seq<char>>,
    n: nat,
)
    requires
        n <= armed.len(),
        forall|i: int| 0 <= i < armed.len() ==> #[trigger] armed[i] < usize::MAX,
        clips.len() <= usize::MAX,
        ({
            let b = section_bundle(kind, bank, armed, armed.len(), len);
            forall|i: int|
                0 <= i < b.clips.len() ==> clips.contains(
                    after_last(#[trigger] b.clips[i].name, '/'),
                )
        }),
    ensures
        ({
            let ids = layer_ids_of(kind, armed, armed.len());
            let found = layers_found(ids, clips, n);
            &&& found.len() == n
            &&& forall|i: int|
                0 <= i < n ==> (#[trigger] found[i]).1 == armed[i] && clips[found[i].0 as int]
                    == ids[i]
        }),
    decreases n,
{
    if n > 0 {
        lemma_layers_found(kind, bank, armed, len, clips, (n - 1) as nat);
        let b = section_bundle(kind, bank, armed, armed.len(), len);
        let ids = layer_ids_of(kind, armed, armed.len());
        let id = ids[n - 1];
        assert(b.clips[n as int].name == clip_path(bank, id));
        layers_come_back(bank, kind, armed[n - 1]);
        assert(clips.contains(id));
        lemma_only_match(clips, is_id(id), id);
    }
}

} // verus!
