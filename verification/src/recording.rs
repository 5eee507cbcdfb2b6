//! Recording: which sources are armed, what starting and stopping does, where
//! the takes go, and the envelope that is shown while recording.
use vstd::prelude::*;

use crate::number::Real32;
use crate::number::ZERO_BITS;
use crate::text::decimal;
use crate::text::decimal_text;
use crate::text::is_blank;
use crate::text::join;
use crate::text::blank;
use crate::text::trim;
use crate::text::trimmed;

verus! {

/// How many frames of a source may wait for the writer.
pub const REC_RING_FRAMES: usize = 65536;

/// How many samples make a bucket of the envelope that is shown while
/// recording.
pub const PREVIEW_SAMPLES_PER_BUCKET: u32 = 4800;

/// How many buckets that envelope has at most.
pub const PREVIEW_MAX_BUCKETS: usize = 8192;

/// Which sources are armed, and whether recording is on.
#[derive(Debug)]
pub struct RecordState {
    pub active: bool,
    pub armed: Vec<bool>,
}

/// The contents of a [`RecordState`].
#[verifier::ext_equal]
pub struct RecordView {
    pub active: bool,
    pub armed: Seq<bool>,
}

impl View for RecordState {
    type V = RecordView;

    open spec fn view(&self) -> RecordView {
        RecordView { active: self.active, armed: self.armed@ }
    }
}

impl RecordView {
    /// With source `s` armed or not, where it is there.
    pub open spec fn with_armed(self, s: usize, on: bool) -> RecordView {
        RecordView {
            armed: if s < self.armed.len() {
                self.armed.update(s as int, on)
            } else {
                self.armed
            },
            ..self
        }
    }
}

/// The positions below `n` of the armed sources, in order.
pub open spec fn armed_below(armed: Seq<bool>, n: nat) -> Seq<usize>
    decreases n,
{
    if n == 0 || n > armed.len() {
        Seq::empty()
    } else {
        let before = armed_below(armed, (n - 1) as nat);
        if armed[n - 1] {
            before.push((n - 1) as usize)
        } else {
            before
        }
    }
}

/// The armed sources, in order.
pub open spec fn armed_sources(armed: Seq<bool>) -> Seq<usize> {
    armed_below(armed, armed.len())
}

proof fn lemma_armed_below(armed: Seq<bool>, n: nat)
    requires
        n <= armed.len() <= usize::MAX,
    ensures
        armed_below(armed, n).len() <= n,
        forall|i: int|
            0 <= i < armed_below(armed, n).len() ==> (#[trigger] armed_below(armed, n)[i]) < n
                && armed[armed_below(armed, n)[i] as int],
        forall|i: int, j: int|
            0 <= i < j < armed_below(armed, n).len() ==> (#[trigger] armed_below(armed, n)[i]) < (
            #[trigger] armed_below(armed, n)[j]),
        forall|s: int|
            0 <= s < n && #[trigger] armed[s] ==> armed_below(armed, n).contains(s as usize),
    decreases n,
{
    if n > 0 {
        let m = (n - 1) as nat;
        lemma_armed_below(armed, m);
        let a = armed_below(armed, m);
        let b = armed_below(armed, n);
        assert forall|s: int| 0 <= s < n && #[trigger] armed[s] implies b.contains(s as usize) by {
            if s < m {
                assert(a.contains(s as usize));
                let i = choose|i: int| 0 <= i < a.len() && a[i] == s as usize;
                assert(b[i] == s as usize);
            } else {
                assert(b[b.len() - 1] == s as usize);
            }
        }
    }
}

impl RecordState {
    /// Nothing is armed, and recording is off.
    pub fn new(num_sources: usize) -> (r: Self)
        ensures
            r@ == (RecordView { active: false, armed: Seq::new(num_sources as nat, |i: int| false) }),
    {
        let mut armed: Vec<bool> = Vec::new();
        let mut i: usize = 0;
        while i < num_sources
            invariant
                0 <= i <= num_sources,
                armed@ =~= Seq::new(i as nat, |k: int| false),
            decreases num_sources - i,
        {
            armed.push(false);
            i += 1;
        }
        RecordState { active: false, armed }
    }

    pub fn num_sources(&self) -> (r: usize)
        ensures
            r == self@.armed.len(),
    {
        self.armed.len()
    }

    pub fn is_active(&self) -> (r: bool)
        ensures
            r == self@.active,
    {
        self.active
    }

    fn set_active(&mut self, on: bool)
        ensures
            final(self)@ == (RecordView { active: on, ..old(self)@ }),
    {
        self.active = on;
    }

    /// Whether source `s` is armed. One that is not there is not.
    pub fn is_armed(&self, s: usize) -> (r: bool)
        ensures
            r == (s < self@.armed.len() && self@.armed[s as int]),
    {
        s < self.armed.len() && self.armed[s]
    }

    /// Arm or disarm source `s`. One that is not there stays so.
    pub fn set_armed(&mut self, s: usize, on: bool)
        ensures
            final(self)@ == old(self)@.with_armed(s, on),
    {
        if s < self.armed.len() {
            self.armed.set(s, on);
        }
    }

    /// How many sources are armed.
    pub fn armed_count(&self) -> (r: usize)
        ensures
            r == armed_sources(self@.armed).len(),
    {
        let mut n: usize = 0;
        let mut i: usize = 0;
        while i < self.armed.len()
            invariant
                0 <= i <= self.armed@.len(),
                n == armed_below(self.armed@, i as nat).len(),
                n <= i,
            decreases self.armed@.len() - i,
        {
            if self.armed[i] {
                n += 1;
            }
            i += 1;
        }
        n
    }

    /// The armed sources, in order.
    pub fn armed_sources(&self) -> (r: Vec<usize>)
        ensures
            r@ == armed_sources(self@.armed),
    {
        let mut out: Vec<usize> = Vec::new();
        let mut i: usize = 0;
        while i < self.armed.len()
            invariant
                0 <= i <= self.armed@.len(),
                out@ == armed_below(self.armed@, i as nat),
            decreases self.armed@.len() - i,
        {
            if self.armed[i] {
                out.push(i);
            }
            i += 1;
        }
        out
    }
}

/// What the caller is to do after the record button.
#[derive(Debug)]
pub enum RecorderStep {
    /// Tell the writer to stop.
    Stop,
    /// Nothing: the control says why.
    Refused,
    /// Make the folders of the session and start the writer.
    Create {
        session_name: String,
        /// The folder of the recording, below that of the session.
        folders: Vec<String>,
        armed: Vec<usize>,
    },
}

/// The record button and what it shows.
#[derive(Debug)]
pub struct RecorderControl {
    pub state: RecordState,
    pub recording: bool,
    /// The folder of the current or last session.
    pub last_session: Option<String>,
    pub last_session_name: Option<String>,
    /// The sources of the current or last session.
    pub last_armed: Vec<usize>,
    pub error: Option<String>,
}

/// The contents of a [`RecorderControl`].
#[verifier::ext_equal]
pub struct ControlView {
    pub state: RecordView,
    pub recording: bool,
    pub last_session: Option<Seq<char>>,
    pub last_session_name: Option<Seq<char>>,
    pub last_armed: Seq<usize>,
    pub error: Option<Seq<char>>,
}

/// A control that has not recorded.
pub open spec fn fresh_control(state: RecordView) -> ControlView {
    ControlView {
        state,
        recording: false,
        last_session: None,
        last_session_name: None,
        last_armed: Seq::empty(),
        error: None,
    }
}

impl ControlView {
    /// Recording has stopped.
    pub open spec fn stopped(self) -> ControlView {
        ControlView {
            state: RecordView { active: false, ..self.state },
            recording: false,
            ..self
        }
    }

    /// Something went wrong.
    pub open spec fn failed(self, why: Seq<char>) -> ControlView {
        ControlView { error: Some(why), ..self }
    }

    /// The audio side sends these sources.
    pub open spec fn sending(self, armed: Seq<usize>) -> ControlView {
        ControlView {
            last_armed: armed,
            state: RecordView { active: true, ..self.state },
            ..self
        }
    }

    /// There is no writer.
    pub open spec fn gone(self) -> ControlView {
        ControlView {
            state: RecordView { active: false, ..self.state },
            error: Some("recorder thread is gone"@),
            ..self
        }
    }

    /// The writer writes to a session.
    pub open spec fn running(self, session: Seq<char>, name: Seq<char>) -> ControlView {
        ControlView {
            recording: true,
            last_session: Some(session),
            last_session_name: Some(name),
            error: None,
            ..self
        }
    }
}

/// The contents of a text that may not be there.
pub open spec fn text_view(s: Option<String>) -> Option<Seq<char>> {
    match s {
        Some(t) => Some(t@),
        None => None,
    }
}

impl View for RecorderControl {
    type V = ControlView;

    open spec fn view(&self) -> ControlView {
        ControlView {
            state: self.state@,
            recording: self.recording,
            last_session: text_view(self.last_session),
            last_session_name: text_view(self.last_session_name),
            last_armed: self.last_armed@,
            error: text_view(self.error),
        }
    }
}

/// The contents of texts.
pub open spec fn texts_of(s: Seq<String>) -> Seq<Seq<char>> {
    s.map_values(|t: String| t@)
}

/// The folders of a recording below that of its session: one per section, or
/// the flat one where there is no section.
pub open spec fn folders_of(slug: Seq<char>) -> Seq<Seq<char>> {
    if slug.len() == 0 {
        seq!["recording"@]
    } else {
        seq!["recording"@, slug]
    }
}

fn flat_folders() -> (r: Vec<String>)
    ensures
        texts_of(r@) == folders_of(Seq::empty()),
{
    let mut out: Vec<String> = Vec::new();
    out.push("recording".to_owned());
    assert(texts_of(out@) =~= folders_of(Seq::empty()));
    out
}

/// The folders of a recording of the section `slug`.
pub fn recording_folders(slug: &str) -> (r: Vec<String>)
    ensures
        texts_of(r@) == folders_of(slug@),
{
    let mut out = flat_folders();
    if slug.unicode_len() > 0 {
        let ghost before = out@;
        out.push(slug.to_owned());
        assert(texts_of(out@) =~= texts_of(before).push(slug@));
        assert(texts_of(out@) =~= folders_of(slug@));
    } else {
        assert(slug@ =~= Seq::empty());
    }
    out
}

/// The folders from which the take of a section is loaded.
pub open spec fn folders_to_load(
    slug: Seq<char>,
    section_there: bool,
    flat_take: bool,
) -> Seq<Seq<char>> {
    if slug.len() == 0 || (!section_there && flat_take) {
        folders_of(Seq::empty())
    } else {
        folders_of(slug)
    }
}

/// The folders from which the take of the section `slug` is loaded: its own,
/// or the flat one where its own is not there and a flat take is.
/// `section_there` tells whether the section's folder is there, `flat_take`
/// whether the flat one holds any recorded source.
pub fn recording_dir(slug: &str, section_there: bool, flat_take: bool) -> (r: Vec<String>)
    ensures
        texts_of(r@) == folders_to_load(slug@, section_there, flat_take),
{
    if slug.unicode_len() == 0 || (!section_there && flat_take) {
        flat_folders()
    } else {
        recording_folders(slug)
    }
}

/// The name of a session: what was typed, without white space around it, or
/// one made of the time where nothing was.
pub open spec fn session_name_of(typed: Seq<char>, now: nat) -> Seq<char> {
    if blank(typed) {
        "session-"@ + decimal_text(now)
    } else {
        trimmed(typed)
    }
}

/// The name of a session that starts at `now`, in seconds.
pub fn resolve_session_name(typed: &str, now: u64) -> (r: String)
    ensures
        r@ == session_name_of(typed@, now as nat),
{
    if is_blank(typed) {
        join("session-", decimal(now as u128).as_str())
    } else {
        trim(typed)
    }
}

/// The folders down to that of a session.
pub open spec fn home_folders(name: Seq<char>) -> Seq<Seq<char>> {
    seq!["Music"@, "Gatherer"@, name]
}

/// The folder of a session below the home folder.
pub fn session_folders(name: &str) -> (r: Vec<String>)
    ensures
        texts_of(r@) == home_folders(name@),
{
    let mut out: Vec<String> = Vec::new();
    out.push("Music".to_owned());
    out.push("Gatherer".to_owned());
    out.push(name.to_owned());
    assert(texts_of(out@) =~= seq!["Music"@, "Gatherer"@, name@]);
    out
}

impl RecorderControl {
    pub fn new(state: RecordState) -> (r: Self)
        ensures
            r@ == fresh_control(state@),
    {
        let r = RecorderControl {
            state,
            recording: false,
            last_session: None,
            last_session_name: None,
            last_armed: Vec::new(),
            error: None,
        };
        assert(r@.last_armed =~= Seq::empty());
        r
    }

    /// The record button: stop where recording is on; else start with the
    /// armed sources, and say so where there are none.
    pub fn toggle(&mut self, session_name: &str, section_slug: &str, now: u64) -> (r: RecorderStep)
        ensures
            ({
                let o = old(self)@;
                let armed = armed_sources(o.state.armed);
                if o.recording {
                    &&& r is Stop
                    &&& final(self)@ == o.stopped()
                } else if armed.len() == 0 {
                    &&& r is Refused
                    &&& final(self)@ == o.failed("Arm at least one source (R) before recording"@)
                } else {
                    &&& r matches RecorderStep::Create { session_name: n, folders, armed: a } && n@
                        == session_name_of(session_name@, now as nat) && texts_of(folders@)
                        == folders_of(section_slug@) && a@ == armed
                    &&& final(self)@ == o
                }
            }),
    {
        if self.recording {
            self.state.set_active(false);
            self.recording = false;
            return RecorderStep::Stop;
        }
        let armed = self.state.armed_sources();
        if armed.len() == 0 {
            self.error = Some("Arm at least one source (R) before recording".to_owned());
            return RecorderStep::Refused;
        }
        RecorderStep::Create {
            session_name: resolve_session_name(session_name, now),
            folders: recording_folders(section_slug),
            armed,
        }
    }

    /// The folders could not be made.
    pub fn not_created(&mut self, why: String)
        ensures
            final(self)@ == old(self)@.failed(why@),
    {
        self.error = Some(why);
    }

    /// The folders are there: the audio side may send these sources.
    pub fn created(&mut self, armed: Vec<usize>)
        ensures
            final(self)@ == old(self)@.sending(armed@),
    {
        self.last_armed = armed;
        self.state.set_active(true);
    }

    /// The writer did not take the command.
    pub fn writer_gone(&mut self)
        ensures
            final(self)@ == old(self)@.gone(),
    {
        self.state.set_active(false);
        self.error = Some("recorder thread is gone".to_owned());
    }

    /// The writer has started.
    pub fn started(&mut self, session: String, session_name: String)
        ensures
            final(self)@ == old(self)@.running(session@, session_name@),
    {
        self.recording = true;
        self.last_session = Some(session);
        self.last_session_name = Some(session_name);
        self.error = None;
    }
}

/// The sources for which the writer opens a file: those that it has.
pub open spec fn opened_sources(armed: Seq<usize>, n: nat) -> Seq<usize> {
    armed.filter(|s: usize| s < n)
}

/// The sources for which a writer of `n` sources opens a file.
pub fn sources_to_open(armed: &[usize], n: usize) -> (r: Vec<usize>)
    ensures
        r@ == opened_sources(armed@, n as nat),
{
    let ghost f = |s: usize| s < n as nat;
    let mut out: Vec<usize> = Vec::new();
    let mut i: usize = 0;
    proof {
        reveal(Seq::filter);
        assert(armed@.take(0) =~= Seq::empty());
    }
    while i < armed.len()
        invariant
            0 <= i <= armed@.len(),
            f == (|s: usize| s < n as nat),
            out@ == armed@.take(i as int).filter(f),
        decreases armed@.len() - i,
    {
        proof {
            reveal(Seq::filter);
            assert(armed@.take(i + 1).drop_last() =~= armed@.take(i as int));
        }
        if armed[i] < n {
            out.push(armed[i]);
        }
        i += 1;
    }
    assert(armed@.take(i as int) =~= armed@);
    out
}

// The envelope that is shown while recording.

/// The envelope of one source: a peak for every full bucket, and what the
/// bucket that is being filled holds so far.
#[derive(Debug)]
pub struct PreviewSource {
    pub source_idx: usize,
    pub envelope: Vec<Real32>,
    pub peak: Real32,
    pub samples: u32,
}

/// The contents of a [`PreviewSource`].
#[verifier::ext_equal]
pub struct PreviewView {
    pub source_idx: usize,
    pub envelope: Seq<Real32>,
    pub peak: Real32,
    pub samples: int,
}

impl View for PreviewSource {
    type V = PreviewView;

    open spec fn view(&self) -> PreviewView {
        PreviewView {
            source_idx: self.source_idx,
            envelope: self.envelope@,
            peak: self.peak,
            samples: self.samples as int,
        }
    }
}

/// An envelope without a bucket.
pub open spec fn fresh_preview(source_idx: usize) -> PreviewView {
    PreviewView {
        source_idx,
        envelope: Seq::empty(),
        peak: Real32 { bits: ZERO_BITS },
        samples: 0,
    }
}

impl PreviewView {
    /// The bucket that is being filled is not full.
    pub open spec fn well_formed(self) -> bool {
        0 <= self.samples < PREVIEW_SAMPLES_PER_BUCKET && self.envelope.len()
            <= PREVIEW_MAX_BUCKETS
    }

    /// After one sample more: nothing where the envelope is full, else the
    /// peak grows, and a bucket that is full joins the envelope.
    pub open spec fn fed(self, sample: Real32) -> PreviewView {
        if self.envelope.len() >= PREVIEW_MAX_BUCKETS {
            self
        } else {
            let peak = self.peak.larger(sample.unsigned());
            if self.samples + 1 >= PREVIEW_SAMPLES_PER_BUCKET {
                PreviewView {
                    envelope: self.envelope.push(peak),
                    peak: Real32 { bits: ZERO_BITS },
                    samples: 0,
                    ..self
                }
            } else {
                PreviewView { peak, samples: self.samples + 1, ..self }
            }
        }
    }

    /// After samples, one after the other.
    pub open spec fn fed_all(self, samples: Seq<Real32>) -> PreviewView
        decreases samples.len(),
    {
        if samples.len() == 0 {
            self
        } else {
            self.fed_all(samples.drop_last()).fed(samples.last())
        }
    }
}

impl PreviewSource {
    pub fn new(source_idx: usize) -> (r: Self)
        ensures
            r@ == fresh_preview(source_idx),
            r@.well_formed(),
    {
        let r = PreviewSource {
            source_idx,
            envelope: Vec::new(),
            peak: Real32 { bits: ZERO_BITS },
            samples: 0,
        };
        assert(r@.envelope =~= Seq::empty());
        r
    }

    /// Take one sample more.
    pub fn feed(&mut self, sample: Real32)
        requires
            old(self)@.well_formed(),
        ensures
            final(self)@ == old(self)@.fed(sample),
            final(self)@.well_formed(),
    {
        if self.envelope.len() < PREVIEW_MAX_BUCKETS {
            let peak = self.peak.max(sample.abs());
            if self.samples + 1 >= PREVIEW_SAMPLES_PER_BUCKET {
                self.envelope.push(peak);
                self.peak = Real32 { bits: ZERO_BITS };
                self.samples = 0;
            } else {
                self.peak = peak;
                self.samples = self.samples + 1;
            }
        }
    }
}

/// The envelopes of a recording.
#[derive(Debug)]
pub struct RecordingPreview {
    pub sources: Vec<PreviewSource>,
    pub sample_rate: u32,
}

/// The contents of envelopes.
pub open spec fn preview_views(s: Seq<PreviewSource>) -> Seq<PreviewView> {
    s.map_values(|p: PreviewSource| p@)
}

/// No bucket that is being filled is full.
pub open spec fn all_well_formed(s: Seq<PreviewSource>) -> bool {
    forall|i: int| 0 <= i < s.len() ==> (#[trigger] s[i])@.well_formed()
}

/// The first envelope of a source.
pub open spec fn for_source(source_idx: usize) -> spec_fn(PreviewView) -> bool {
    |p: PreviewView| p.source_idx == source_idx
}

/// The full buckets of a source.
pub open spec fn envelope_for(s: Seq<PreviewView>, source_idx: usize) -> Seq<Real32> {
    match crate::seqs::first_index(s, for_source(source_idx)) {
        Some(i) => s[i].envelope,
        None => Seq::empty(),
    }
}

/// The envelopes after one sample more of a source.
pub open spec fn fed_for(s: Seq<PreviewView>, source_idx: usize, sample: Real32) -> Seq<
    PreviewView,
> {
    match crate::seqs::first_index(s, for_source(source_idx)) {
        Some(i) => s.update(i, s[i].fed(sample)),
        None => s,
    }
}

impl RecordingPreview {
    /// Envelopes of the armed sources, without a bucket.
    pub fn new(armed: &[usize], sample_rate: u32) -> (r: Self)
        ensures
            preview_views(r.sources@) == armed@.map_values(|s: usize| fresh_preview(s)),
            all_well_formed(r.sources@),
            r.sample_rate == sample_rate,
    {
        let mut sources: Vec<PreviewSource> = Vec::new();
        let ghost f = |s: usize| fresh_preview(s);
        let mut i: usize = 0;
        while i < armed.len()
            invariant
                0 <= i <= armed@.len(),
                f == (|s: usize| fresh_preview(s)),
                preview_views(sources@) =~= armed@.take(i as int).map_values(f),
                all_well_formed(sources@),
            decreases armed@.len() - i,
        {
            let ghost before = sources@;
            sources.push(PreviewSource::new(armed[i]));
            assert(preview_views(sources@) =~= preview_views(before).push(
                fresh_preview(armed@[i as int]),
            ));
            i += 1;
        }
        assert(armed@.take(i as int) =~= armed@);
        RecordingPreview { sources, sample_rate }
    }

    /// Where the envelope of a source is.
    pub fn find(&self, source_idx: usize) -> (r: Option<usize>)
        ensures
            match r {
                Some(i) => crate::seqs::first_index(
                    preview_views(self.sources@),
                    for_source(source_idx),
                ) == Some(i as int) && i < self.sources@.len(),
                None => crate::seqs::first_index(
                    preview_views(self.sources@),
                    for_source(source_idx),
                ) is None,
            },
    {
        let ghost s = preview_views(self.sources@);
        let ghost f = for_source(source_idx);
        let mut i: usize = 0;
        while i < self.sources.len()
            invariant
                0 <= i <= self.sources@.len(),
                s == preview_views(self.sources@),
                f == for_source(source_idx),
                forall|k: int| 0 <= k < i ==> !f(#[trigger] s[k]),
            decreases self.sources@.len() - i,
        {
            assert(s[i as int] == self.sources@[i as int]@);
            if self.sources[i].source_idx == source_idx {
                proof {
                    assert(crate::seqs::is_first(s, f, i as int));
                    crate::seqs::lemma_first_index(s, f, i as int);
                }
                return Some(i);
            }
            i += 1;
        }
        proof {
            crate::seqs::lemma_first_index_found(s, f);
        }
        None
    }

    /// The full buckets of a source; none where it is not recorded.
    pub fn snapshot(&self, source_idx: usize) -> (r: Vec<Real32>)
        ensures
            r@ == envelope_for(preview_views(self.sources@), source_idx),
    {
        match self.find(source_idx) {
            Some(i) => {
                let v = &self.sources[i].envelope;
                let mut out: Vec<Real32> = Vec::new();
                let mut k: usize = 0;
                while k < v.len()
                    invariant
                        0 <= k <= v@.len(),
                        out@ =~= v@.take(k as int),
                    decreases v@.len() - k,
                {
                    out.push(v[k]);
                    k += 1;
                }
                assert(preview_views(self.sources@)[i as int] == self.sources@[i as int]@);
                out
            },
            None => {
                let out: Vec<Real32> = Vec::new();
                assert(out@ =~= Seq::empty());
                out
            },
        }
    }

    /// Take one sample more of a source that is recorded.
    pub fn feed(&mut self, source_idx: usize, sample: Real32)
        requires
            all_well_formed(old(self).sources@),
        ensures
            final(self).sample_rate == old(self).sample_rate,
            all_well_formed(final(self).sources@),
            preview_views(final(self).sources@) == fed_for(
                preview_views(old(self).sources@),
                source_idx,
                sample,
            ),
    {
        let ghost before = self.sources@;
        if let Some(i) = self.find(source_idx) {
            assert(before[i as int]@.well_formed());
            self.sources[i].feed(sample);
            proof {
                let after = self.sources@;
                assert(preview_views(before)[i as int] == before[i as int]@);
                assert forall|k: int| 0 <= k < after.len() implies (
                #[trigger] after[k])@.well_formed() by {
                    if k != i {
                        assert(after[k] == before[k]);
                        assert(before[k]@.well_formed());
                    }
                }
                assert(preview_views(after) =~= preview_views(before).update(
                    i as int,
                    before[i as int]@.fed(sample),
                ));
            }
        }
    }
}

// Laws.

/// The armed sources are those that are armed, each once, in order.
pub proof fn armed_sources_are_the_armed(armed: Seq<bool>)
    requires
        armed.len() <= usize::MAX,
    ensures
        forall|s: usize|
            #[trigger] armed_sources(armed).contains(s) <==> s < armed.len() && armed[s as int],
        forall|i: int, j: int|
            0 <= i < j < armed_sources(armed).len() ==> (#[trigger] armed_sources(armed)[i]) < (
            #[trigger] armed_sources(armed)[j]),
{
    lemma_armed_below(armed, armed.len());
}

/// The peak of samples: the greatest without its sign, from zero up.
pub open spec fn peak_of(samples: Seq<Real32>) -> Real32
    decreases samples.len(),
{
    if samples.len() == 0 {
        Real32 { bits: ZERO_BITS }
    } else {
        peak_of(samples.drop_last()).larger(samples.last().unsigned())
    }
}

/// What a source's envelope is after samples: the peaks of the full buckets,
/// as many as there is room for, and the peak of what is left over.
pub open spec fn envelope_of(source_idx: usize, samples: Seq<Real32>) -> PreviewView {
    let n = samples.len() as int;
    let full = n / 4800;
    if full >= 8192 {
        PreviewView {
            source_idx,
            envelope: Seq::new(8192, |i: int| peak_of(samples.subrange(i * 4800, i * 4800 + 4800))),
            peak: Real32 { bits: ZERO_BITS },
            samples: 0,
        }
    } else {
        PreviewView {
            source_idx,
            envelope: Seq::new(
                full as nat,
                |i: int| peak_of(samples.subrange(i * 4800, i * 4800 + 4800)),
            ),
            peak: peak_of(samples.subrange(full * 4800, n)),
            samples: n % 4800,
        }
    }
}

/// Feeding samples one by one gives the peaks of their buckets.
pub proof fn envelope_holds_the_peaks(source_idx: usize, samples: Seq<Real32>)
    ensures
        fresh_preview(source_idx).fed_all(samples) == envelope_of(source_idx, samples),
    decreases samples.len(),
{
    let n = samples.len() as int;
    if n == 0 {
        let e = envelope_of(source_idx, samples);
        assert(e.envelope =~= Seq::empty());
        assert(samples.subrange(0, 0) =~= Seq::empty());
        assert(e =~= fresh_preview(source_idx));
    } else {
        let rest = samples.drop_last();
        let x = samples.last();
        envelope_holds_the_peaks(source_idx, rest);
        let before = envelope_of(source_idx, rest);
        let after = envelope_of(source_idx, samples);
        let full = (n - 1) / 4800;
        assert forall|i: int| 0 <= i < full implies samples.subrange(
            i * 4800,
            #[trigger] (i * 4800) + 4800,
        ) =~= rest.subrange(i * 4800, i * 4800 + 4800) by {}
        if full >= 8192 {
            assert(after.envelope =~= before.envelope);
        } else {
            let open = rest.subrange(full * 4800, n - 1);
            let more = samples.subrange(full * 4800, n);
            assert(more.drop_last() =~= open);
            assert(more.last() == x);
            assert(peak_of(more) == peak_of(open).larger(x.unsigned()));
            if n % 4800 == 0 {
                assert(n / 4800 == full + 1);
                assert(full * 4800 + 4800 == n);
                assert(samples.subrange(n, n) =~= Seq::empty());
                assert(after.envelope =~= before.envelope.push(peak_of(more)));
            } else {
                assert(n / 4800 == full);
                assert(after.envelope =~= before.envelope);
            }
        }
        assert(before.fed(x) =~= after);
    }
}

} // verus!
