//! Capture: the choice of a device configuration, and which samples of a block
//! belong to which source. Source `s` has the channels `2s` and `2s + 1`.
use vstd::prelude::*;

verus! {

/// Frames per callback that are asked of a device.
pub const DEFAULT_BUFFER_SIZE: u32 = 512;

/// The most sources that are captured.
pub const MAX_SOURCES: usize = 32;

/// The most frames of one callback that are used.
pub const MAX_BLOCK_FRAMES: usize = 8192;

/// How many frames may wait between capture and monitor.
pub const RING_FRAMES: usize = 8192;

/// A configuration that a device supports.
#[derive(Debug, Clone, Copy, PartialEq, Eq, Structural)]
pub struct InputConfig {
    /// Samples are 32-bit floating-point values.
    pub float: bool,
    pub channels: u16,
    pub min_rate: u32,
    pub max_rate: u32,
}

impl InputConfig {
    /// Floating-point samples at this rate are supported.
    pub open spec fn fits(self, rate: u32) -> bool {
        self.float && self.min_rate <= rate <= self.max_rate
    }
}

/// The configuration `i` fits, none that fits has more channels, and none
/// behind it has as many.
pub open spec fn is_best(configs: Seq<InputConfig>, rate: u32, i: int) -> bool {
    &&& 0 <= i < configs.len()
    &&& configs[i].fits(rate)
    &&& forall|k: int|
        0 <= k < configs.len() && (#[trigger] configs[k]).fits(rate) ==> configs[k].channels
            <= configs[i].channels && (k > i ==> configs[k].channels < configs[i].channels)
}

/// The configuration with the most channels among those with floating-point
/// samples at this rate: the last of those that have as many.
pub fn best_f32_input_config(configs: &[InputConfig], rate: u32) -> (r: Option<usize>)
    ensures
        match r {
            Some(i) => is_best(configs@, rate, i as int),
            None => forall|k: int|
                0 <= k < configs@.len() ==> !(#[trigger] configs@[k]).fits(rate),
        },
{
    let mut best: Option<usize> = None;
    let mut i: usize = 0;
    while i < configs.len()
        invariant
            0 <= i <= configs@.len(),
            match best {
                Some(b) => b < i && is_best(configs@.take(i as int), rate, b as int),
                None => forall|k: int|
                    0 <= k < i ==> !(#[trigger] configs@.take(i as int)[k]).fits(rate),
            },
        decreases configs@.len() - i,
    {
        let c = configs[i];
        let ghost before = configs@.take(i as int);
        let ghost now = configs@.take(i + 1);
        assert forall|k: int| 0 <= k < i implies #[trigger] now[k] == before[k] by {}
        assert(now[i as int] == c);
        if c.float && c.min_rate <= rate && rate <= c.max_rate {
            best = match best {
                Some(b) => if configs[b].channels <= c.channels {
                    proof {
                        assert(before[b as int] == configs@[b as int]);
                        assert(is_best(now, rate, i as int)) by {
                            assert forall|k: int|
                                0 <= k < now.len() && (#[trigger] now[k]).fits(
                                    rate,
                                ) implies now[k].channels <= now[i as int].channels && (k > i
                                ==> now[k].channels < now[i as int].channels) by {
                                if k < i {
                                    assert(before[k].fits(rate));
                                }
                            }
                        }
                    }
                    Some(i)
                } else {
                    proof {
                        assert(before[b as int] == configs@[b as int]);
                        assert(is_best(now, rate, b as int)) by {
                            assert forall|k: int|
                                0 <= k < now.len() && (#[trigger] now[k]).fits(
                                    rate,
                                ) implies now[k].channels <= now[b as int].channels && (k > b
                                ==> now[k].channels < now[b as int].channels) by {
                                if k < i {
                                    assert(before[k].fits(rate));
                                }
                            }
                        }
                    }
                    Some(b)
                },
                None => {
                    proof {
                        assert(is_best(now, rate, i as int)) by {
                            assert forall|k: int|
                                0 <= k < now.len() && (#[trigger] now[k]).fits(
                                    rate,
                                ) implies now[k].channels <= now[i as int].channels && (k > i
                                ==> now[k].channels < now[i as int].channels) by {
                                if k < i {
                                    assert(!before[k].fits(rate));
                                }
                            }
                        }
                    }
                    Some(i)
                },
            };
        } else {
            proof {
                match best {
                    Some(b) => {
                        assert(is_best(now, rate, b as int)) by {
                            assert forall|k: int|
                                0 <= k < now.len() && (#[trigger] now[k]).fits(
                                    rate,
                                ) implies now[k].channels <= now[b as int].channels && (k > b
                                ==> now[k].channels < now[b as int].channels) by {
                                assert(before[k].fits(rate));
                            }
                        }
                    },
                    None => {
                        assert forall|k: int| 0 <= k < i + 1 implies !(
                        #[trigger] now[k]).fits(rate) by {
                            if k < i {
                                assert(!before[k].fits(rate));
                            }
                        }
                    },
                }
            }
        }
        i += 1;
    }
    assert(configs@.take(i as int) =~= configs@);
    best
}

/// How many sources a device of `channels` channels has, where `wanted` are
/// wanted.
pub open spec fn source_count(channels: int, wanted: int) -> int {
    let pairs = if channels / 2 < 32 {
        channels / 2
    } else {
        32
    };
    if pairs < wanted {
        pairs
    } else {
        wanted
    }
}

/// How many sources are captured: one per pair of channels, at most 32, and no
/// more than are wanted.
pub fn num_sources(channels: usize, wanted: usize) -> (r: usize)
    ensures
        r == source_count(channels as int, wanted as int),
{
    let pairs: usize = if channels / 2 < MAX_SOURCES {
        channels / 2
    } else {
        MAX_SOURCES
    };
    if pairs < wanted {
        pairs
    } else {
        wanted
    }
}

/// The whole frames of a block that are used.
pub open spec fn frames_of(samples: int, channels: int) -> int {
    if channels == 0 {
        0
    } else if samples / channels < 8192 {
        samples / channels
    } else {
        8192
    }
}

/// How many frames of a block of `samples` interleaved samples are used.
pub fn block_frames(samples: usize, channels: usize) -> (r: usize)
    ensures
        r == frames_of(samples as int, channels as int),
{
    if channels == 0 {
        0
    } else {
        let n: usize = samples / channels;
        if n < MAX_BLOCK_FRAMES {
            n
        } else {
            MAX_BLOCK_FRAMES
        }
    }
}

/// Where the left sample of a source stands in a block; the right one follows.
pub open spec fn sample_place(frame: int, channels: int, source: int) -> int {
    frame * channels + source * 2
}

/// Where the left sample of source `source` in frame `frame` stands in a block
/// of `samples` samples.
pub fn left_sample(samples: usize, channels: usize, frame: usize, source: usize) -> (r: usize)
    requires
        frame < frames_of(samples as int, channels as int),
        source < channels / 2,
    ensures
        r == sample_place(frame as int, channels as int, source as int),
        r + 1 < samples,
{
    proof {
        samples_lie_in_block(samples as int, channels as int, frame as int, source as int);
    }
    assert(0 <= frame * channels) by (nonlinear_arith);
    frame * channels + source * 2
}

// Laws.

/// The samples of every source in every used frame lie within the block.
pub proof fn samples_lie_in_block(samples: int, channels: int, frame: int, source: int)
    requires
        0 <= samples,
        0 <= channels,
        0 <= frame < frames_of(samples, channels),
        0 <= source < channels / 2,
    ensures
        0 <= sample_place(frame, channels, source),
        sample_place(frame, channels, source) + 1 < samples,
{
    let n = samples / channels;
    vstd::arithmetic::div_mod::lemma_fundamental_div_mod(samples, channels);
    vstd::arithmetic::div_mod::lemma_mod_bound(samples, channels);
    assert(frame * channels + channels <= channels * n) by (nonlinear_arith)
        requires
            frame + 1 <= n,
            channels > 0,
    ;
    assert(0 <= frame * channels) by (nonlinear_arith)
        requires
            0 <= frame,
            channels > 0,
    ;
}

/// No two sources of a frame share a sample, nor do two frames.
pub proof fn samples_are_not_shared(channels: int, f: int, s: int, g: int, t: int)
    requires
        0 <= f,
        0 <= g,
        0 <= s < channels / 2,
        0 <= t < channels / 2,
        sample_place(f, channels, s) == sample_place(g, channels, t),
    ensures
        f == g,
        s == t,
{
    if f < g {
        assert(f * channels + channels <= g * channels) by (nonlinear_arith)
            requires
                f + 1 <= g,
                channels > 0,
        ;
    }
    if g < f {
        assert(g * channels + channels <= f * channels) by (nonlinear_arith)
            requires
                g + 1 <= f,
                channels > 0,
        ;
    }
}

/// There is one best configuration at most. One more at the end that fits takes
/// its place where it has as many channels or more, and else leaves it.
pub proof fn the_best_configuration_has_the_most_channels(
    configs: Seq<InputConfig>,
    rate: u32,
    i: int,
    j: int,
    c: InputConfig,
)
    requires
        is_best(configs, rate, i),
    ensures
        is_best(configs, rate, j) ==> i == j,
        0 <= j < configs.len() && configs[j].fits(rate) ==> configs[j].channels
            <= configs[i].channels,
        configs[i].float && configs[i].min_rate <= rate && rate <= configs[i].max_rate,
        c.float && c.min_rate <= rate && rate <= c.max_rate && c.channels >= configs[i].channels
            ==> is_best(configs.push(c), rate, configs.len() as int),
        !c.fits(rate) || c.channels < configs[i].channels ==> is_best(configs.push(c), rate, i),
{
    let all = configs.push(c);
    assert forall|k: int| 0 <= k < configs.len() && (#[trigger] all[k]).fits(
        rate,
    ) implies all[k].channels <= configs[i].channels by {
        assert(all[k] == configs[k]);
    }
    assert(all[i] == configs[i]);
    if !c.fits(rate) || c.channels < configs[i].channels {
        assert forall|k: int| 0 <= k < all.len() && (#[trigger] all[k]).fits(
            rate,
        ) implies all[k].channels <= all[i].channels && (k > i ==> all[k].channels
            < all[i].channels) by {
            if k < configs.len() {
                assert(all[k] == configs[k]);
            }
        }
    }
}

} // verus!
