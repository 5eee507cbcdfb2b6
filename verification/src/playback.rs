//! The transport of a loaded take.
use vstd::prelude::*;

verus! {

/// How many buckets the waveform of a source is shown in.
pub const ENVELOPE_BUCKETS: usize = 1200;

/// The transport: where the playhead stands, and whether it moves.
#[derive(Debug, Clone, Copy, PartialEq, Eq, Structural)]
pub struct Playback {
    pub playing: bool,
    /// The frame under the playhead.
    pub position: u64,
    pub len_frames: u64,
    pub loaded: bool,
}

impl Playback {
    pub fn new() -> (r: Self)
        ensures
            r == (Playback { playing: false, position: 0, len_frames: 0, loaded: false }),
    {
        Playback { playing: false, position: 0, len_frames: 0, loaded: false }
    }

    /// A take of `len_frames` was loaded: the transport stands at its start.
    pub fn set_take(&mut self, len_frames: u64)
        ensures
            *final(self) == (Playback { playing: false, position: 0, len_frames, loaded: true }),
    {
        self.playing = false;
        self.position = 0;
        self.len_frames = len_frames;
        self.loaded = true;
    }

    /// No take is loaded any more.
    pub fn clear(&mut self)
        ensures
            *final(self) == (Playback {
                playing: false,
                position: 0,
                len_frames: 0,
                loaded: false,
            }),
    {
        self.playing = false;
        self.position = 0;
        self.len_frames = 0;
        self.loaded = false;
    }

    pub fn has_take(&self) -> (r: bool)
        ensures
            r == self.loaded,
    {
        self.loaded
    }

    /// After `play`: nothing without a take; from the start where the end was
    /// reached.
    pub open spec fn played(self) -> Playback {
        if self.loaded {
            Playback {
                playing: true,
                position: if self.position >= self.len_frames {
                    0
                } else {
                    self.position
                },
                ..self
            }
        } else {
            self
        }
    }

    pub fn play(&mut self)
        ensures
            *final(self) == old(self).played(),
    {
        if self.loaded {
            if self.position >= self.len_frames {
                self.position = 0;
            }
            self.playing = true;
        }
    }

    /// Stop moving, and stay.
    pub fn pause(&mut self)
        ensures
            *final(self) == (Playback { playing: false, ..*old(self) }),
    {
        self.playing = false;
    }

    /// Stop moving, and rewind.
    pub fn stop(&mut self)
        ensures
            *final(self) == (Playback { playing: false, position: 0, ..*old(self) }),
    {
        self.playing = false;
        self.position = 0;
    }

    pub fn is_playing(&self) -> (r: bool)
        ensures
            r == self.playing,
    {
        self.playing
    }

    pub fn position(&self) -> (r: u64)
        ensures
            r == self.position,
    {
        self.position
    }

    pub fn set_position(&mut self, p: u64)
        ensures
            *final(self) == (Playback { position: p, ..*old(self) }),
    {
        self.position = p;
    }

    pub fn len_frames(&self) -> (r: u64)
        ensures
            r == self.len_frames,
    {
        self.len_frames
    }
}

/// The frames of the longest of several buffers of stereo samples.
pub open spec fn longest(lens: Seq<usize>) -> int
    decreases lens.len(),
{
    if lens.len() == 0 {
        0
    } else {
        let m = longest(lens.drop_last());
        let n = lens.last() as int / 2;
        if m < n {
            n
        } else {
            m
        }
    }
}

/// How long a take is whose sources have these many stereo samples: as long as
/// the longest.
pub fn take_frames(lens: &[usize]) -> (r: usize)
    ensures
        r == longest(lens@),
{
    let mut max: usize = 0;
    let mut i: usize = 0;
    assert(lens@.take(0) =~= Seq::empty());
    while i < lens.len()
        invariant
            0 <= i <= lens@.len(),
            max == longest(lens@.take(i as int)),
        decreases lens@.len() - i,
    {
        assert(lens@.take(i + 1).drop_last() =~= lens@.take(i as int));
        let n: usize = lens[i] / 2;
        if max < n {
            max = n;
        }
        i += 1;
    }
    assert(lens@.take(i as int) =~= lens@);
    max
}

/// How many buckets the waveform of a source of `frames` frames has: one per
/// frame where there are few, and one where there is none.
pub fn bucket_count(frames: usize) -> (r: usize)
    ensures
        r == if frames == 0 {
            1
        } else if frames < ENVELOPE_BUCKETS {
            frames
        } else {
            ENVELOPE_BUCKETS
        },
{
    if frames == 0 {
        1
    } else if frames < ENVELOPE_BUCKETS {
        frames
    } else {
        ENVELOPE_BUCKETS
    }
}

// Laws.

/// Pausing and playing on keeps the playhead where it was, unless the end was
/// reached.
pub proof fn pause_keeps_position(p: Playback)
    requires
        p.loaded,
        p.position < p.len_frames,
    ensures
        (Playback { playing: false, ..p }).played() == (Playback { playing: true, ..p }),
{
}

/// The transport moves only over a loaded take, and from a frame of it where
/// it has any.
pub proof fn plays_only_a_take(p: Playback)
    requires
        !p.playing,
    ensures
        p.played().playing == p.loaded,
        p.loaded && p.len_frames > 0 ==> p.played().position < p.len_frames,
{
}

} // verus!
