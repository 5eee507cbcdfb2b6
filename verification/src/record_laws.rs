//! What recording does from start to end, where takes go, and which samples and
//! sources are captured.
use vstd::prelude::*;

use crate::audio::frames_of;
use crate::audio::sample_place;
use crate::audio::source_count;
use crate::number::Real32;
use crate::number::ZERO_BITS;
use crate::recording::armed_sources;
use crate::recording::armed_sources_are_the_armed;
use crate::recording::envelope_for;
use crate::recording::fed_for;
use crate::recording::folders_of;
use crate::recording::folders_to_load;
use crate::recording::for_source;
use crate::recording::fresh_control;
use crate::recording::fresh_preview;
use crate::recording::home_folders;
use crate::recording::opened_sources;
use crate::recording::peak_of;
use crate::recording::session_name_of;
use crate::recording::ControlView;
use crate::recording::PreviewView;
use crate::recording::RecordView;
use crate::seqs::first_index;
use crate::seqs::lemma_first_index_found;
use crate::text::begins_with;
use crate::text::blank;
use crate::text::decimal_text;
use crate::text::trimmed;
use crate::text_laws::numbers_are_written_once;
use crate::text_laws::trimming_cuts_white_space;

verus! {

/// Arming a source adds it to those that are armed, and disarming takes it from
/// them. The others and whether recording is on stay.
pub proof fn arming_touches_one_source(v: RecordView, s: usize, on: bool, t: usize)
    requires
        v.armed.len() <= usize::MAX,
    ensures
        ({
            let w = v.with_armed(s, on);
            &&& w.active == v.active && w.armed.len() == v.armed.len()
            &&& armed_sources(w.armed).contains(t) <==> if t == s {
                on && s < v.armed.len()
            } else {
                armed_sources(v.armed).contains(t)
            }
        }),
{
    armed_sources_are_the_armed(v.armed);
    armed_sources_are_the_armed(v.with_armed(s, on).armed);
}

/// A recording runs once its sources are sent and its writer has started, with
/// no error left over. When it is stopped, nothing is sent any more, and where
/// it went and of which sources is kept. Which sources are armed never changes.
pub proof fn a_recording_runs_and_stops(
    o: ControlView,
    armed: Seq<usize>,
    session: Seq<char>,
    name: Seq<char>,
)
    ensures
        ({
            let n = o.sending(armed).running(session, name);
            &&& n.recording && n.state.active
            &&& n.state.armed == o.state.armed
            &&& n.last_armed == armed
            &&& n.last_session == Some(session) && n.last_session_name == Some(name)
            &&& n.error is None
            &&& !n.stopped().recording && !n.stopped().state.active
            &&& (ControlView {
                recording: true,
                state: RecordView { active: true, ..n.stopped().state },
                ..n.stopped()
            }) == n
        }),
        ({
            let n = o.sending(armed);
            &&& n.state.active && n.last_armed == armed
            &&& (ControlView {
                state: RecordView { active: o.state.active, ..n.state },
                last_armed: o.last_armed,
                ..n
            }) == o
        }),
{
}

/// What goes wrong is told and changes nothing else, but that nothing is sent
/// to a writer that is gone.
pub proof fn failures_are_told(o: ControlView, why: Seq<char>)
    ensures
        o.failed(why).error == Some(why),
        (ControlView { error: o.error, ..o.failed(why) }) == o,
        o.gone().error is Some,
        !o.gone().state.active,
        (ControlView {
            error: o.error,
            state: RecordView { active: o.state.active, ..o.gone().state },
            ..o.gone()
        }) == o,
        o.gone().recording == o.recording,
{
}

/// A new control has recorded nothing, whatever is armed.
pub proof fn a_control_begins_idle(v: RecordView)
    ensures
        ({
            let c = fresh_control(v);
            &&& c.state == v && !c.recording
            &&& c.last_session is None && c.last_session_name is None && c.last_armed.len() == 0
            &&& c.error is None
        }),
{
}

/// Recordings go to the folder of their section below the one for recordings,
/// so that those of two sections never share one. They are loaded from there,
/// unless there is only a take without a section.
pub proof fn sections_have_folders(a: Seq<char>, b: Seq<char>, there: bool, flat: bool)
    ensures
        a != b ==> folders_of(a) != folders_of(b),
        a.len() > 0 ==> folders_of(a).len() == 2 && folders_of(a)[0] == "recording"@ && folders_of(
            a,
        )[1] == a,
        a.len() == 0 ==> folders_of(a) == seq!["recording"@],
        there || !flat ==> folders_to_load(a, there, flat) == folders_of(a),
        !there && flat ==> folders_to_load(a, there, flat).len() == 1,
        folders_to_load(a, there, flat)[0] == folders_of(a)[0],
{
    if a.len() > 0 && b.len() > 0 {
        assert(folders_of(a)[1] == a);
        assert(folders_of(b)[1] == b);
    }
    if a.len() == 0 {
        assert(a =~= Seq::empty());
        assert(folders_of(a).len() == 1);
    } else {
        assert(folders_of(a).len() == 2);
    }
    if b.len() == 0 {
        assert(b =~= Seq::empty());
    }
}

/// Sessions with different names have different folders, all below one.
pub proof fn sessions_have_folders(a: Seq<char>, b: Seq<char>)
    ensures
        home_folders(a).len() == 3 && home_folders(a).last() == a,
        home_folders(a).drop_last() == home_folders(b).drop_last(),
        a != b ==> home_folders(a) != home_folders(b),
{
    assert(home_folders(a)[2] == a);
    assert(home_folders(b)[2] == b);
    assert(home_folders(a).drop_last() =~= home_folders(b).drop_last());
}

/// A session is named as was typed, without white space around it. Where
/// nothing was typed it is named after the time, and not like one of another
/// time. It never goes without a name.
pub proof fn sessions_are_named(typed: Seq<char>, now: nat, later: nat)
    ensures
        session_name_of(typed, now).len() > 0,
        !blank(typed) ==> session_name_of(typed, now) == trimmed(typed),
        blank(typed) ==> begins_with(session_name_of(typed, now), "session-"@),
        blank(typed) && now != later ==> session_name_of(typed, now) != session_name_of(
            typed,
            later,
        ),
{
    reveal_strlit("session-");
    trimming_cuts_white_space(typed);
    if blank(typed) {
        let (s, t) = (session_name_of(typed, now), session_name_of(typed, later));
        assert(s.subrange(0, 8) =~= "session-"@);
        assert(s.skip(8) =~= decimal_text(now));
        assert(t.skip(8) =~= decimal_text(later));
        numbers_are_written_once(now, later);
    }
}

/// A writer opens a file for each source that it has and no other, in the order
/// they were armed in.
pub proof fn writers_open_what_they_have(armed: Seq<usize>, n: nat, s: usize)
    ensures
        opened_sources(armed, n).contains(s) <==> armed.contains(s) && s < n,
        opened_sources(armed.push(s), n) == if s < n {
            opened_sources(armed, n).push(s)
        } else {
            opened_sources(armed, n)
        },
        (forall|i: int| 0 <= i < armed.len() ==> #[trigger] armed[i] < n) ==> opened_sources(
            armed,
            n,
        ) == armed,
    decreases armed.len(),
{
    let f = |s: usize| s < n;
    let o = opened_sources(armed, n);
    reveal(Seq::filter);
    assert(armed.push(s).drop_last() =~= armed);
    if armed.len() > 0 {
        let t = armed.drop_last();
        writers_open_what_they_have(t, n, s);
        let p = t.filter(f);
        assert(armed =~= t.push(armed.last()));
        if o.contains(s) {
            let k = choose|k: int| 0 <= k < o.len() && o[k] == s;
            if k < p.len() {
                assert(p[k] == s);
                assert(p.contains(s));
                let j = choose|j: int| 0 <= j < t.len() && t[j] == s;
                assert(armed[j] == s);
            } else {
                assert(armed[armed.len() - 1] == s);
            }
        }
        if armed.contains(s) && s < n {
            let k = choose|k: int| 0 <= k < armed.len() && armed[k] == s;
            if k < t.len() {
                assert(t[k] == s);
                assert(p.contains(s));
                let j = choose|j: int| 0 <= j < p.len() && p[j] == s;
                assert(o[j] == s);
            } else {
                assert(o[p.len() as int] == s);
            }
        }
        if forall|i: int| 0 <= i < armed.len() ==> #[trigger] armed[i] < n {
            assert forall|i: int| 0 <= i < t.len() implies #[trigger] t[i] < n by {
                assert(t[i] == armed[i]);
            }
            assert(armed[armed.len() - 1] < n);
        }
    } else {
        assert(o =~= armed);
    }
}

/// The peak of samples is the loudest of them without its sign, or nothing where
/// all are silent.
pub proof fn peaks_are_the_loudest(samples: Seq<Real32>, i: int)
    ensures
        !peak_of(samples).nan(),
        (Real32 { bits: ZERO_BITS }).at_most(peak_of(samples)),
        0 <= i < samples.len() && !samples[i].nan() ==> samples[i].unsigned().at_most(
            peak_of(samples),
        ),
        peak_of(samples) != (Real32 { bits: ZERO_BITS }) ==> exists|k: int|
            0 <= k < samples.len() && peak_of(samples) == (#[trigger] samples[k]).unsigned(),
    decreases samples.len(),
{
    if samples.len() > 0 {
        let t = samples.drop_last();
        peaks_are_the_loudest(t, i);
        let last = samples.len() - 1;
        if peak_of(samples) == samples[last].unsigned() {
        } else if peak_of(t) != (Real32 { bits: ZERO_BITS }) {
            let k = choose|k: int|
                0 <= k < t.len() && peak_of(t) == (#[trigger] t[k]).unsigned();
            assert(samples[k] == t[k]);
        }
    }
}

/// A sample goes into the envelope of its source alone. A source without an
/// envelope shows nothing.
pub proof fn samples_go_to_their_source(
    s: Seq<PreviewView>,
    source: usize,
    other: usize,
    sample: Real32,
)
    requires
        source != other,
    ensures
        envelope_for(fed_for(s, source, sample), other) == envelope_for(s, other),
        fed_for(s, source, sample).len() == s.len(),
        (forall|i: int| 0 <= i < s.len() ==> (#[trigger] s[i]).source_idx != source) ==> fed_for(
            s,
            source,
            sample,
        ) == s && envelope_for(s, source).len() == 0,
        first_index(s, for_source(source)) matches Some(i) ==> fed_for(s, source, sample)[i]
            == s[i].fed(sample) && envelope_for(s, source) == s[i].envelope,
{
    lemma_first_index_found(s, for_source(source));
    lemma_first_index_found(s, for_source(other));
    let t = fed_for(s, source, sample);
    lemma_first_index_found(t, for_source(other));
    if let Some(i) = first_index(s, for_source(source)) {
        assert(s[i].source_idx == source);
        assert(t[i].source_idx == source);
    }
    match (first_index(s, for_source(other)), first_index(t, for_source(other))) {
        (Some(a), Some(b)) => {
            assert(for_source(other)(t[a]) == for_source(other)(s[a]));
            assert(for_source(other)(t[b]) == for_source(other)(s[b]));
            assert(!(a < b));
            assert(!(b < a));
        },
        (Some(a), None) => {
            assert(for_source(other)(t[a]));
        },
        (None, Some(b)) => {
            assert(for_source(other)(s[b]));
        },
        (None, None) => {},
    }
}

/// A sample joins a bucket that has room, and fills its envelope with the peak
/// of the bucket when it is the last. A full envelope takes no more.
pub proof fn buckets_fill_up(p: PreviewView, sample: Real32)
    requires
        p.well_formed(),
    ensures
        p.fed(sample).source_idx == p.source_idx,
        p.envelope.len() == 8192 ==> p.fed(sample) == p,
        p.envelope.len() < 8192 && p.samples < 4799 ==> p.fed(sample).envelope == p.envelope
            && p.fed(sample).samples == p.samples + 1,
        p.envelope.len() < 8192 && p.samples == 4799 ==> {
            let n = p.fed(sample);
            &&& n.envelope.len() == p.envelope.len() + 1
            &&& n.envelope.drop_last() == p.envelope
            &&& n.samples == 0 && n.peak == (Real32 { bits: ZERO_BITS })
            &&& !p.peak.nan() ==> p.peak.at_most(n.envelope.last())
            &&& !sample.nan() ==> sample.unsigned().at_most(n.envelope.last())
        },
        fresh_preview(p.source_idx).envelope.len() == 0,
{
    let n = p.fed(sample);
    if p.envelope.len() < 8192 && p.samples == 4799 {
        assert(n.envelope.drop_last() =~= p.envelope);
    }
}

// Capture.

/// As many sources are captured as there are whole pairs of channels, but no
/// more than 32 and than are wanted.
pub proof fn sources_are_pairs_of_channels(channels: int, wanted: int, n: int)
    requires
        0 <= channels,
        0 <= wanted,
        0 <= n,
    ensures
        n <= source_count(channels, wanted) <==> 2 * n <= channels && n <= 32 && n <= wanted,
{
}

/// Of a block the whole frames are used, but no more than 8192.
pub proof fn whole_frames_are_used(samples: int, channels: int, n: int)
    requires
        0 <= samples,
        0 < channels,
        0 <= n,
    ensures
        n <= frames_of(samples, channels) <==> n * channels <= samples && n <= 8192,
        frames_of(samples, 0) == 0,
{
    let q = samples / channels;
    assert(n <= q <==> n * channels <= samples) by {
        vstd::arithmetic::div_mod::lemma_fundamental_div_mod(samples, channels);
        if n <= q {
            assert(n * channels <= q * channels) by (nonlinear_arith)
                requires
                    n <= q,
                    0 < channels,
            ;
            assert(q * channels <= samples) by (nonlinear_arith)
                requires
                    samples == channels * q + samples % channels,
                    0 <= samples % channels,
            ;
        } else {
            assert(n * channels >= (q + 1) * channels) by (nonlinear_arith)
                requires
                    n >= q + 1,
                    0 < channels,
            ;
            assert((q + 1) * channels > samples) by (nonlinear_arith)
                requires
                    samples == channels * q + samples % channels,
                    samples % channels < channels,
            ;
        }
    }
}

/// The samples of a frame stand side by side, those of a source in a pair, the
/// sources in order, and the frames one behind the other.
pub proof fn samples_stand_in_order(frame: int, channels: int, source: int)
    ensures
        sample_place(0, channels, 0) == 0,
        sample_place(frame, channels, source + 1) == sample_place(frame, channels, source) + 2,
        sample_place(frame + 1, channels, source) == sample_place(frame, channels, source)
            + channels,
{
    assert((frame + 1) * channels == frame * channels + channels) by (nonlinear_arith);
    assert(0 * channels == 0);
}

} // verus!
