//! What a bundle holds of the takes that are saved in it, what is found in one
//! that is brought in, and what the hub says of both.
use vstd::prelude::*;

use crate::asset::wlamodel::clip_path;
use crate::asset::wlamodel::SectionFound;
use crate::hub::assembly::bundle_of;
use crate::hub::assembly::planned;
use crate::hub::assembly::section_clips;
use crate::hub::assembly::section_plans;
use crate::hub::assembly::BundleSound;
use crate::hub::bundle::after_last;
use crate::hub::bundle::bank_text;
use crate::hub::bundle::brought_in;
use crate::hub::bundle::bundle_meta;
use crate::hub::bundle::code_of;
use crate::hub::bundle::folder_text;
use crate::hub::bundle::is_id;
use crate::hub::bundle::is_sorted_of;
use crate::hub::bundle::layer_id_of;
use crate::hub::bundle::layer_id_tells_source;
use crate::hub::bundle::layers_found;
use crate::hub::bundle::mix_id;
use crate::hub::bundle::model_text;
use crate::hub::bundle::section_bundle;
use crate::hub::bundle::section_plan;
use crate::hub::bundle::source_of;
use crate::hub::bundle::sources_written;
use crate::hub::bundle::SectionBundleView;
use crate::hub::labels::exported_line;
use crate::hub::labels::imported_line;
use crate::hub::labels::loaded_line;
use crate::hub::labels::loop_line;
use crate::hub::labels::midi_line;
use crate::hub::labels::not_exported_line;
use crate::hub::labels::record_line;
use crate::hub::labels::session_folder;
use crate::hub::labels::source_text;
use crate::hub::labels::tab_text;
use crate::hub::takes::SectionTakeView;
use crate::hub::takes::TakesView;
use crate::midi::bar_beat_at;
use crate::midi::GridState;
use crate::navigator::model::AssetMetaView;
use crate::navigator::model::AssetType;
use crate::navigator::model::SectionKind;
use crate::number::Real32;
use crate::number::ZERO_BITS;
use crate::recording::armed_sources;
use crate::recording::ControlView;
use crate::seqs::is_last;
use crate::seqs::last_index;
use crate::seqs::lemma_only_match;
use crate::text::begins_with;
use crate::text::blank;
use crate::text::decimal_text;
use crate::text::ends_with;
use crate::text::lemma_digits_nonneg;
use crate::text::number_text;
use crate::text::trimmed;
use crate::text::white_space;
use crate::text::without_plus;
use crate::text_laws::numbers_are_written_once;
use crate::text_laws::trimming_cuts_white_space;

verus! {

/// A bundle is named by the code of the asset, and by the session where the
/// asset has none. It has a name where either has, with no white space around
/// it.
pub proof fn bundles_are_named(meta: AssetMetaView, session: Seq<char>)
    ensures
        code_of(meta, session) is None <==> blank(meta.production_code) && blank(session),
        !blank(meta.production_code) ==> code_of(meta, session) == Some(
            trimmed(meta.production_code),
        ),
        blank(meta.production_code) && !blank(session) ==> code_of(meta, session) == Some(
            trimmed(session),
        ),
        code_of(meta, session) matches Some(c) ==> c.len() > 0 && !white_space(c[0])
            && !white_space(c.last()),
{
    trimming_cuts_white_space(meta.production_code);
    trimming_cuts_white_space(session);
}

/// The header of a bundle has the code, and names the asset like the variant,
/// which is the code where it has no name of its own. What is said of the asset
/// is kept.
pub proof fn headers_are_filled_in(meta: AssetMetaView, code: Seq<char>)
    ensures
        ({
            let m = bundle_meta(meta, code);
            &&& m.production_code == code
            &&& m.asset_name == m.variant_name
            &&& blank(meta.variant_name) ==> m.variant_name == code
            &&& !blank(meta.variant_name) ==> m.variant_name == trimmed(meta.variant_name)
            &&& m.asset_type == AssetType::Music
            &&& m.description == meta.description && m.tags == meta.tags
        }),
{
}

/// The folder of a bundle begins with its code and has its variant before the
/// ending; its files are the code and the ending of their kind.
pub proof fn files_of_a_bundle(meta: AssetMetaView, code: Seq<char>)
    ensures
        begins_with(folder_text(meta), meta.production_code),
        ends_with(folder_text(meta), meta.variant_name + "_TT"@),
        folder_text(meta).len() == meta.production_code.len() + meta.variant_name.len() + 6,
        begins_with(bank_text(code), code) && bank_text(code).skip(code.len() as int)
            == ".wlabank"@,
        begins_with(model_text(code), code) && model_text(code).skip(code.len() as int)
            == ".wlamodel"@,
        bank_text(code) != model_text(code),
{
    reveal_strlit(" - ");
    reveal_strlit("_TT");
    reveal_strlit(".wlabank");
    reveal_strlit(".wlamodel");
    let f = folder_text(meta);
    let c = meta.production_code;
    let v = meta.variant_name + "_TT"@;
    assert(f.subrange(0, c.len() as int) =~= c);
    assert(f.subrange(f.len() - v.len(), f.len() as int) =~= v);
    let (b, m) = (bank_text(code), model_text(code));
    assert(b.subrange(0, code.len() as int) =~= code);
    assert(m.subrange(0, code.len() as int) =~= code);
    assert(b.skip(code.len() as int) =~= ".wlabank"@);
    assert(m.skip(code.len() as int) =~= ".wlamodel"@);
}

/// The name of a clip is the bank's folder, a slash, and the id of the clip.
pub proof fn clips_are_named_for_their_bank(bank: Seq<char>, id: Seq<char>)
    ensures
        begins_with(clip_path(bank, id), "module_"@),
        ends_with(clip_path(bank, id), id),
        clip_path(bank, id).subrange(7, 7int + bank.len()) == bank,
        clip_path(bank, id)[7int + bank.len()] == '/',
        clip_path(bank, id).len() == 8 + bank.len() + id.len(),
{
    reveal_strlit("module_");
    reveal_strlit("/");
    let s = clip_path(bank, id);
    assert(s.subrange(0, 7) =~= "module_"@);
    assert(s.subrange(s.len() - id.len(), s.len() as int) =~= id);
    assert(s.subrange(7, 7int + bank.len()) =~= bank);
}

/// The mixes of different sections, the layers of different sources and a mix
/// and its layers have different ids. The id of a mix begins with the letter of
/// its section, and that of a layer with the id of its mix.
pub proof fn clip_ids_differ(a: SectionKind, b: SectionKind, x: nat, y: nat)
    ensures
        a != b ==> mix_id(a) != mix_id(b),
        mix_id(a).len() == 2 && mix_id(a)[0] == a.letter() && mix_id(a)[1] == '1',
        begins_with(layer_id_of(mix_id(a), x), mix_id(a)),
        layer_id_of(mix_id(a), x)[2] == 'l',
        layer_id_of(mix_id(a), x) != mix_id(b),
        (a, x) != (b, y) ==> layer_id_of(mix_id(a), x) != layer_id_of(mix_id(b), y),
{
    reveal_strlit("1");
    reveal_strlit("l");
    let (s, t) = (layer_id_of(mix_id(a), x), layer_id_of(mix_id(b), y));
    assert(mix_id(a)[0] == a.letter());
    assert(mix_id(b)[0] == b.letter());
    assert(s.subrange(0, 2) =~= mix_id(a));
    assert(s[0] == a.letter());
    assert(t[0] == b.letter());
    assert(s.skip(3) =~= decimal_text(x + 1));
    assert(t.skip(3) =~= decimal_text(y + 1));
    numbers_are_written_once(x + 1, y + 1);
}

/// A section puts its mix into a bundle, with no buffer of its own, and behind
/// it a layer for each source that has a buffer, in order: each tells its
/// source, and is named for the bank.
pub proof fn a_section_is_laid_out(
    kind: SectionKind,
    bank: Seq<char>,
    armed: Seq<usize>,
    buffers: usize,
    len: u64,
    i: int,
)
    requires
        forall|k: int| 0 <= k < armed.len() ==> #[trigger] armed[k] < usize::MAX,
    ensures
        ({
            let b = section_bundle(kind, bank, armed, buffers as nat, len);
            &&& b.kind == kind && b.len_frames == len && b.mix == mix_id(kind)
            &&& b.layer_ids.len() <= armed.len() && b.layer_ids.len() <= buffers
            &&& b.layer_ids.len() == armed.len() || b.layer_ids.len() == buffers
            &&& b.clips.len() == b.layer_ids.len() + 1
            &&& b.clips[0].id == b.mix && b.clips[0].buffer is None
            &&& b.clips[0].name == clip_path(bank, b.mix)
            &&& 0 <= i < b.layer_ids.len() ==> {
                let c = b.clips[i + 1];
                &&& c.id == b.layer_ids[i] && c.buffer == Some(i as usize)
                &&& c.name == clip_path(bank, b.layer_ids[i])
                &&& source_of(b.layer_ids[i]) == armed[i]
                &&& begins_with(b.layer_ids[i], b.mix)
            }
        }),
{
    let b = section_bundle(kind, bank, armed, buffers as nat, len);
    if 0 <= i < b.layer_ids.len() {
        layer_id_tells_source(mix_id(kind), armed[i]);
        clip_ids_differ(kind, kind, armed[i] as nat, 0);
    }
}

/// The model has a section as it was laid out, with the regions of its take.
pub proof fn a_section_is_planned(b: SectionBundleView, bank: Seq<char>, t: SectionTakeView)
    ensures
        ({
            let p = section_plan(b, bank, t);
            &&& p.kind == b.kind && p.pattern_id == b.mix && p.len_frames == b.len_frames
            &&& p.bank_name == bank && p.layer_ids == b.layer_ids
            &&& p.in_regions == t.in_regions && p.out_regions == t.out_regions
        }),
{
}

/// A bundle holds the sections that have both a take and sound, and no other,
/// each with its sound.
pub proof fn a_bundle_holds_what_was_recorded(
    bank: Seq<char>,
    takes: TakesView,
    sound: BundleSound,
    kind: SectionKind,
)
    ensures
        ({
            let s = bundle_of(bank, takes, sound);
            &&& (exists|i: int| 0 <= i < s.len() && (#[trigger] s[i]).kind == kind)
                <==> takes.get(kind) is Some && sound.of(kind) is Some
            &&& forall|i: int|
                0 <= i < s.len() ==> (sound.of((#[trigger] s[i]).kind) matches Some(x)
                    && s[i].len_frames == x.len_frames && s[i].layer_ids.len()
                    <= x.armed.len() && s[i].layer_ids.len() <= x.buffers && (s[i].layer_ids.len()
                    == x.armed.len() || s[i].layer_ids.len() == x.buffers))
            &&& s.len() <= 3
        }),
{
    let s = bundle_of(bank, takes, sound);
    let i = planned(SectionKind::Intro, bank, takes, sound);
    let m = planned(SectionKind::Main, bank, takes, sound);
    let o = planned(SectionKind::Outro, bank, takes, sound);
    if takes.get(kind) is Some && sound.of(kind) is Some {
        match kind {
            SectionKind::Intro => {
                assert(s[0].kind == kind);
            },
            SectionKind::Main => {
                assert(s[i.len() as int].kind == kind);
            },
            SectionKind::Outro => {
                assert(s[0int + i.len() + m.len()].kind == kind);
            },
        }
    }
}

/// The sound of a section is looked up by its kind.
pub proof fn sound_is_kept_by_kind(sound: BundleSound)
    ensures
        sound.intro is Some <==> sound.of(SectionKind::Intro) is Some,
        sound.main is Some <==> sound.of(SectionKind::Main) is Some,
        sound.outro is Some <==> sound.of(SectionKind::Outro) is Some,
        sound.intro matches Some(s) ==> sound.of(SectionKind::Intro) == Some(s@),
        sound.main matches Some(s) ==> sound.of(SectionKind::Main) == Some(s@),
        sound.outro matches Some(s) ==> sound.of(SectionKind::Outro) == Some(s@),
{
}

/// Each clip of a section has the section's kind and length, and its own id,
/// name and buffer.
pub proof fn clips_are_those_of_their_section(b: SectionBundleView, i: int)
    ensures
        section_clips()(b).len() == b.clips.len(),
        0 <= i < b.clips.len() ==> {
            let c = section_clips()(b)[i];
            &&& c.kind == b.kind && c.frames == b.len_frames
            &&& c.id == b.clips[i].id && c.name == b.clips[i].name && c.buffer
                == b.clips[i].buffer
        },
{
}

/// The model has each section with a take once.
pub proof fn sections_with_a_take_are_planned(
    b: SectionBundleView,
    bank: Seq<char>,
    takes: TakesView,
)
    ensures
        takes.get(b.kind) is None ==> section_plans(bank, takes)(b).len() == 0,
        takes.get(b.kind) matches Some(t) ==> section_plans(bank, takes)(b).len() == 1
            && section_plans(bank, takes)(b)[0].in_regions == t.in_regions && section_plans(
            bank,
            takes,
        )(b)[0].out_regions == t.out_regions && section_plans(bank, takes)(b)[0].kind == b.kind,
{
}

// Bringing in.

/// What stands behind the last of a character holds none of it, ends the text,
/// and comes right behind one where it is not all of the text.
pub proof fn the_last_part_of_a_name(s: Seq<char>, c: char)
    ensures
        ends_with(s, after_last(s, c)),
        !after_last(s, c).contains(c),
        ({
            let n = s.len() - after_last(s, c).len();
            n > 0 ==> s[n - 1] == c
        }),
    decreases s.len(),
{
    let t = after_last(s, c);
    if s.len() == 0 || s.last() == c {
        assert(s.subrange(s.len() as int, s.len() as int) =~= t);
    } else {
        let o = s.drop_last();
        let u = after_last(o, c);
        the_last_part_of_a_name(o, c);
        assert(s.subrange(s.len() - t.len(), s.len() as int) =~= t) by {
            assert(o.subrange(o.len() - u.len(), o.len() as int) =~= u);
            assert forall|k: int| 0 <= k < t.len() implies #[trigger] t[k] == s[s.len() - t.len()
                + k] by {
                if k < u.len() {
                    assert(u[k] == o.subrange(o.len() - u.len(), o.len() as int)[k]);
                }
            }
        }
        assert forall|k: int| 0 <= k < t.len() implies #[trigger] t[k] != c by {
            if k < u.len() {
                assert(t[k] == u[k]);
                assert(u.contains(u[k]));
            }
        }
    }
}

/// An id without a number behind its last "l" tells the first source.
pub proof fn ids_without_a_number_tell_the_first(id: Seq<char>)
    ensures
        number_text(after_last(id, 'l'), usize::MAX as int) is None ==> source_of(id) == 0,
        number_text(after_last(id, 'l'), usize::MAX as int) matches Some(n) ==> n > 0 ==> source_of(
            id,
        ) + 1 == n,
{
}

/// Each layer that is found is in the last clip of its id, and tells its
/// source. Each layer that has a clip is found.
pub proof fn layers_are_found_in_their_clips(
    ids: Seq<Seq<char>>,
    clips: Seq<Seq<char>>,
    n: nat,
    j: int,
    i: int,
)
    requires
        n <= ids.len(),
        clips.len() <= usize::MAX,
    ensures
        layers_found(ids, clips, n).len() <= n,
        0 <= j < layers_found(ids, clips, n).len() ==> {
            let (c, source) = layers_found(ids, clips, n)[j];
            &&& c < clips.len()
            &&& ids.take(n as int).contains(clips[c as int])
            &&& forall|k: int| c < k < clips.len() ==> #[trigger] clips[k] != clips[c as int]
            &&& source == source_of(clips[c as int])
        },
        0 <= i < n && clips.contains(ids[i]) ==> exists|k: int|
            0 <= k < layers_found(ids, clips, n).len() && clips[(
            #[trigger] layers_found(ids, clips, n)[k]).0 as int] == ids[i],
    decreases n,
{
    if n > 0 {
        let m = (n - 1) as nat;
        let f = is_id(ids[m as int]);
        layers_are_found_in_their_clips(ids, clips, m, j, i);
        let before = layers_found(ids, clips, m);
        let all = layers_found(ids, clips, n);
        lemma_last_is(clips, ids[m as int]);
        lemma_source_in_range(ids[m as int]);
        assert(ids.take(n as int) =~= ids.take(m as int).push(ids[m as int]));
        if 0 <= j < all.len() {
            if j < before.len() {
                assert(all[j] == before[j]);
                let x = clips[before[j].0 as int];
                let p = choose|p: int| 0 <= p < m && ids.take(m as int)[p] == x;
                assert(ids.take(n as int)[p] == x);
            } else {
                assert(ids.take(n as int)[m as int] == ids[m as int]);
            }
        }
        if 0 <= i < n && clips.contains(ids[i]) {
            if i < m {
                let k = choose|k: int|
                    0 <= k < before.len() && clips[(#[trigger] before[k]).0 as int] == ids[i];
                assert(all[k] == before[k]);
            } else {
                assert(clips[all[before.len() as int].0 as int] == ids[i]);
            }
        }
    }
}

proof fn lemma_last_is(clips: Seq<Seq<char>>, id: Seq<char>)
    ensures
        clips.contains(id) <==> last_index(clips, is_id(id)) is Some,
        last_index(clips, is_id(id)) matches Some(c) ==> is_last(clips, is_id(id), c),
{
    if clips.contains(id) {
        lemma_only_match(clips, is_id(id), id);
    }
    if last_index(clips, is_id(id)) is Some {
        let c = choose|c: int| is_last(clips, is_id(id), c);
        assert(clips[c] == id);
    }
}

proof fn lemma_source_in_range(id: Seq<char>)
    ensures
        0 <= source_of(id) <= usize::MAX,
{
    let t = after_last(id, 'l');
    if number_text(t, usize::MAX as int) is Some {
        lemma_digits_nonneg(without_plus(t));
    }
}

/// A take that is brought in has the sources that were written, the regions of
/// its section, and the meter of the hub. It stands at the start of the grid,
/// has no tempo, and was not dragged. Main loops over all of it.
pub proof fn a_take_is_brought_in(s: SectionFound, armed: Seq<usize>, time_sig: u32)
    ensures
        ({
            let t = brought_in(s, armed, time_sig);
            &&& t.armed == armed && t.time_sig == time_sig
            &&& t.in_regions == s.in_regions && t.out_regions == s.out_regions
            &&& t.start_pulses == 0
            &&& t.bpm == (Real32 { bits: ZERO_BITS }) && t.user_offset_units == t.bpm
            &&& s.kind != SectionKind::Main || s.len_frames == 0 ==> t.loop_range is None
            &&& s.kind == SectionKind::Main && s.len_frames > 0 ==> t.loop_range == Some(
                (0u64, s.len_frames),
            )
        }),
{
}

/// Sorting keeps every number as often as it is there, in order. What is sorted
/// stays so.
pub proof fn sorted_sources_are_the_same(r: Seq<usize>, s: Seq<usize>, n: usize)
    requires
        is_sorted_of(r, s),
    ensures
        r.len() == s.len(),
        r.contains(n) <==> s.contains(n),
        r.to_multiset() == s.to_multiset(),
        is_sorted_of(r, r),
        forall|i: int, j: int| 0 <= i <= j < r.len() ==> #[trigger] r[i] <= #[trigger] r[j],
{
    broadcast use vstd::seq_lib::group_to_multiset_ensures;

    assert(r.contains(n) <==> r.to_multiset().count(n) > 0);
    assert(s.contains(n) <==> s.to_multiset().count(n) > 0);
    assert(r.to_multiset().len() == r.len());
    assert(s.to_multiset().len() == s.len());
}

/// Numbers that are in order are sorted.
pub proof fn ordered_sources_are_sorted(s: Seq<usize>)
    requires
        forall|i: int, j: int| 0 <= i < j < s.len() ==> #[trigger] s[i] <= #[trigger] s[j],
    ensures
        is_sorted_of(s, s),
{
}

/// The source of each written layer is noted, in order.
pub proof fn written_sources_are_noted(s: Seq<(usize, usize)>, i: int)
    requires
        0 <= i < s.len(),
    ensures
        sources_written(s).len() == s.len(),
        sources_written(s)[i] == s[i].1,
{
}

// What is said.

/// A recorder that runs tells where to, and one that does not tells how many
/// sources are armed and what went wrong last.
pub proof fn the_recorder_says_what_it_does(r: ControlView)
    ensures
        r.recording ==> begins_with(record_line(r), "\u{25CF} REC"@) && (
        r.last_session matches Some(p) ==> ends_with(record_line(r), p)),
        !r.recording ==> begins_with(
            record_line(r),
            "armed: "@ + decimal_text(armed_sources(r.state.armed).len()),
        ) && (r.error matches Some(e) ==> ends_with(record_line(r), e)),
        !r.recording && r.error is None ==> record_line(r) == "armed: "@ + decimal_text(
            armed_sources(r.state.armed).len(),
        ),
{
    reveal_strlit("\u{25CF} REC");
    reveal_strlit("\u{25CF} REC \u{2192} ");
    let s = record_line(r);
    let rec = "\u{25CF} REC"@;
    if r.recording {
        assert(s.subrange(0, rec.len() as int) =~= rec);
        if let Some(p) = r.last_session {
            assert(s.subrange(s.len() - p.len(), s.len() as int) =~= p);
        }
    } else {
        let n = "armed: "@ + decimal_text(armed_sources(r.state.armed).len());
        assert(s.subrange(0, n.len() as int) =~= n);
        if let Some(e) = r.error {
            assert(s.subrange(s.len() - e.len(), s.len() as int) =~= e);
        }
    }
}

/// A source is called by the name it was given, or else by its number, counted
/// from one.
pub proof fn sources_are_called_by_their_names(names: Seq<String>, s: int)
    requires
        0 <= s,
    ensures
        s < names.len() && !blank(names[s]@) ==> source_text(names, s) == trimmed(names[s]@),
        s >= names.len() || blank(names[s]@) ==> ends_with(
            source_text(names, s),
            decimal_text((s + 1) as nat),
        ) && begins_with(source_text(names, s), "Src "@),
{
    let t = source_text(names, s);
    let d = decimal_text((s + 1) as nat);
    if s < names.len() {
        trimming_cuts_white_space(names[s]@);
    }
    if s >= names.len() || blank(names[s]@) {
        assert(t.subrange(t.len() - d.len(), t.len() as int) =~= d);
        assert(t.subrange(0, "Src "@.len() as int) =~= "Src "@);
    }
}

/// The tab of a section ends with what its kind is called, and is marked where
/// there is a take.
pub proof fn tabs_mark_takes(kind: SectionKind, recorded: bool)
    ensures
        ends_with(tab_text(kind, recorded), kind.label_text()),
        tab_text(kind, recorded) == kind.label_text() <==> !recorded,
{
    reveal_strlit("\u{25CF} ");
    let t = tab_text(kind, recorded);
    let l = kind.label_text();
    assert(t.subrange(t.len() - l.len(), t.len() as int) =~= l);
}

/// The loop window is told from its begin to its end.
pub proof fn loops_are_told_by_their_bounds(b: u64, e: u64)
    ensures
        begins_with(loop_line(Some((b, e))), "loop "@ + decimal_text(b as nat)),
        ends_with(loop_line(Some((b, e))), decimal_text(e as nat)),
        loop_line(Some((b, e))).len() == 6 + decimal_text(b as nat).len() + decimal_text(
            e as nat,
        ).len(),
        loop_line(Some((b, e)))[5 + decimal_text(b as nat).len() as int] == '\u{2013}',
        begins_with(loop_line(None), "loop "@),
        loop_line(None).len() == 6,
{
    reveal_strlit("loop ");
    reveal_strlit("loop \u{2014}");
    reveal_strlit("\u{2013}");
    let s = loop_line(Some((b, e)));
    let (x, y) = ("loop "@ + decimal_text(b as nat), decimal_text(e as nat));
    assert(s.subrange(0, x.len() as int) =~= x);
    assert(s.subrange(s.len() - y.len(), s.len() as int) =~= y);
    assert(loop_line(None).subrange(0, 5) =~= "loop "@);
}

/// After a load, an export or an import the status tells how many sections there
/// were and where.
pub proof fn statuses_tell_the_place(n: nat, dir: Seq<char>)
    ensures
        ends_with(loaded_line(n, dir), dir),
        n > 0 ==> begins_with(loaded_line(n, dir), "loaded "@ + decimal_text(n)),
        ends_with(imported_line(n, dir), dir),
        begins_with(imported_line(n, dir), "imported "@ + decimal_text(n)),
        ends_with(exported_line(dir), dir),
        ends_with(not_exported_line(dir), dir),
        exported_line(dir) != not_exported_line(dir),
{
    reveal_strlit("\u{2192} ");
    reveal_strlit("export error: ");
    let (a, b) = (loaded_line(n, dir), imported_line(n, dir));
    let (c, d) = (exported_line(dir), not_exported_line(dir));
    assert(a.subrange(a.len() - dir.len(), a.len() as int) =~= dir);
    assert(b.subrange(b.len() - dir.len(), b.len() as int) =~= dir);
    assert(c.subrange(c.len() - dir.len(), c.len() as int) =~= dir);
    assert(d.subrange(d.len() - dir.len(), d.len() as int) =~= dir);
    let (x, y) = ("loaded "@ + decimal_text(n), "imported "@ + decimal_text(n));
    if n > 0 {
        assert(a.subrange(0, x.len() as int) =~= x);
    }
    assert(b.subrange(0, y.len() as int) =~= y);
}

/// Where the clock runs its status tells the tempo, the bar, the beat and the
/// meter, in this order.
pub proof fn the_clock_tells_where_it_is(grid: GridState, tempo: Seq<char>, time_sig: u32)
    requires
        grid.connected,
    ensures
        ({
            let (bar, beat) = bar_beat_at(grid.pulses, time_sig as int);
            let s = midi_line(grid, tempo, time_sig);
            let rest = tempo + "   bar "@ + decimal_text(bar as nat) + " : beat "@ + decimal_text(
                beat as nat,
            ) + "   meter "@ + decimal_text(time_sig as nat) + "/4"@;
            &&& begins_with(s, "MIDI "@)
            &&& ends_with(s, rest)
            &&& s[5] == if grid.playing {
                '\u{25B6}'
            } else {
                '\u{25A0}'
            }
        }),
{
    reveal_strlit("MIDI ");
    reveal_strlit("\u{25B6}");
    reveal_strlit("\u{25A0}");
    let (bar, beat) = bar_beat_at(grid.pulses, time_sig as int);
    let s = midi_line(grid, tempo, time_sig);
    let rest = tempo + "   bar "@ + decimal_text(bar as nat) + " : beat "@ + decimal_text(
        beat as nat,
    ) + "   meter "@ + decimal_text(time_sig as nat) + "/4"@;
    assert(s.subrange(0, 5) =~= "MIDI "@);
    assert(s.subrange(s.len() - rest.len(), s.len() as int) =~= rest);
}

/// The folder of a session is its name without white space around it. Every
/// session has one.
pub proof fn sessions_have_a_folder(name: Seq<char>)
    ensures
        session_folder(name).len() > 0,
        !blank(name) ==> session_folder(name) == trimmed(name),
        blank(name) ==> session_folder(name) == "untitled"@,
{
    reveal_strlit("untitled");
    trimming_cuts_white_space(name);
}

} // verus!
