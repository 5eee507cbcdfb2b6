//! The mappings and modes of a setup header: which floor and which residue the
//! channels of a packet have.
use vstd::prelude::*;

use vstd::arithmetic::power2::lemma2_to64;

use crate::asset::vorbis::bits::bit;
use crate::asset::vorbis::bits::field;
use crate::asset::vorbis::bits::get;
use crate::asset::vorbis::bits::holds;
use crate::asset::vorbis::bits::width_of;
use crate::number::width;

verus! {

/// A mapping: the submap of each channel, and the floor and the residue of
/// each submap.
#[derive(Debug)]
pub struct Mapping {
    pub mux: Vec<u32>,
    pub floors: Vec<u32>,
    pub residues: Vec<u32>,
}

/// The contents of a [`Mapping`].
pub struct MappingView {
    pub mux: Seq<u32>,
    pub floors: Seq<u32>,
    pub residues: Seq<u32>,
}

impl View for Mapping {
    type V = MappingView;

    open spec fn view(&self) -> MappingView {
        MappingView { mux: self.mux@, floors: self.floors@, residues: self.residues@ }
    }
}

/// A mode: whether its blocks are the long ones, and its mapping.
#[derive(Clone, Copy)]
pub struct Mode {
    pub long: bool,
    pub mapping: u32,
}

/// The submaps of `left` channels, of four bits each, behind `mux`.
pub open spec fn mux_at(d: Seq<u8>, p: int, left: int, submaps: int, mux: Seq<u32>) -> Option<
    Seq<u32>,
>
    decreases left,
{
    let s = field(d, p, 4);
    if left <= 0 {
        Some(mux)
    } else if !holds(d, p, 4) || s >= submaps {
        None
    } else {
        mux_at(d, p + 4, left - 1, submaps, mux.push(s as u32))
    }
}

/// The floors and residues of `left` submaps, behind those that are there, and
/// where they end.
pub open spec fn submaps_at(
    d: Seq<u8>,
    p: int,
    left: int,
    floors: int,
    residues: int,
    f: Seq<u32>,
    r: Seq<u32>,
) -> Option<(Seq<u32>, Seq<u32>, int)>
    decreases left,
{
    let a = field(d, p + 8, 8);
    let b = field(d, p + 16, 8);
    if left <= 0 {
        Some((f, r, p))
    } else if !holds(d, p, 24) || a >= floors || b >= residues {
        None
    } else {
        submaps_at(
            d,
            p + 24,
            left - 1,
            floors,
            residues,
            f.push(a as u32),
            r.push(b as u32),
        )
    }
}

/// How many submaps a mapping has, by what stands behind its type, and where
/// that ends.
pub open spec fn submap_count_at(d: Seq<u8>, p: int) -> (int, int) {
    if bit(d, p) == 1 {
        (field(d, p + 1, 4) + 1, p + 5)
    } else {
        (1, p + 1)
    }
}

/// Where the steps end by which channels are coupled.
pub open spec fn coupling_end(d: Seq<u8>, p: int, channels: int) -> int {
    if bit(d, p) == 1 {
        p + 9 + (field(d, p + 1, 8) + 1) * 2 * width(channels - 1)
    } else {
        p + 1
    }
}

/// The mapping from `p` on, and where it ends.
pub open spec fn mapping_at(
    d: Seq<u8>,
    p: int,
    channels: int,
    floors: int,
    residues: int,
) -> Option<(MappingView, int)> {
    let (submaps, q) = submap_count_at(d, p + 16);
    let r = coupling_end(d, q, channels) + 2;
    if !holds(d, p, 17) || !holds(d, q, 1) || !holds(d, r, 0) || field(d, p, 16) != 0 {
        None
    } else {
        let mux = if submaps > 1 {
            mux_at(d, r, channels, submaps, Seq::empty())
        } else {
            Some(Seq::new(channels as nat, |i: int| 0u32))
        };
        let t = if submaps > 1 {
            r + 4 * channels
        } else {
            r
        };
        match mux {
            Some(mux) => match submaps_at(
                d,
                t,
                submaps,
                floors,
                residues,
                Seq::empty(),
                Seq::empty(),
            ) {
                Some((f, g, end)) => Some((MappingView { mux, floors: f, residues: g }, end)),
                None => None,
            },
            None => None,
        }
    }
}

pub open spec fn mappings_at(
    d: Seq<u8>,
    p: int,
    left: int,
    channels: int,
    floors: int,
    residues: int,
    mappings: Seq<MappingView>,
) -> Option<(Seq<MappingView>, int)>
    decreases left,
{
    if left <= 0 {
        Some((mappings, p))
    } else {
        match mapping_at(d, p, channels, floors, residues) {
            Some((m, q)) => mappings_at(
                d,
                q,
                left - 1,
                channels,
                floors,
                residues,
                mappings.push(m),
            ),
            None => None,
        }
    }
}

/// `left` modes of 41 bits each, behind `modes`.
pub open spec fn modes_at(d: Seq<u8>, p: int, left: int, mappings: int, modes: Seq<Mode>) -> Option<
    Seq<Mode>,
>
    decreases left,
{
    let m = field(d, p + 33, 8);
    if left <= 0 {
        Some(modes)
    } else if !holds(d, p, 41) || m >= mappings {
        None
    } else {
        modes_at(
            d,
            p + 41,
            left - 1,
            mappings,
            modes.push(Mode { long: bit(d, p) == 1, mapping: m as u32 }),
        )
    }
}

/// The floors and residues of a mapping are among so many, and so are its
/// submaps.
pub open spec fn mapping_in(m: MappingView, floors: nat, residues: nat) -> bool {
    &&& m.floors.len() == m.residues.len()
    &&& forall|s: int| 0 <= s < m.floors.len() ==> (#[trigger] m.floors[s]) < floors
    &&& forall|s: int| 0 <= s < m.residues.len() ==> (#[trigger] m.residues[s]) < residues
}

fn read_mux(d: &Vec<u8>, from: u128, channels: u32, submaps: u32) -> (r: Option<Vec<u32>>)
    requires
        from <= 8 * d@.len(),
    ensures
        match r {
            Some(m) => mux_at(d@, from as int, channels as int, submaps as int, Seq::empty())
                == Some(m@) && holds(d@, from as int, 4 * channels) && m@.len() == channels,
            None => mux_at(d@, from as int, channels as int, submaps as int, Seq::empty()) is None,
        },
{
    let mut p: u128 = from;
    let mut left: u32 = channels;
    let mut mux: Vec<u32> = Vec::new();
    assert(mux@ =~= Seq::empty());
    while left > 0
        invariant
            p <= 8 * d@.len(),
            left <= channels,
            p == from + 4 * (channels - left),
            mux@.len() == channels - left,
            mux_at(d@, from as int, channels as int, submaps as int, Seq::empty()) == mux_at(
                d@,
                p as int,
                left as int,
                submaps as int,
                mux@,
            ),
        decreases left,
    {
        match get(d, p, 4) {
            Some(s) => {
                if s >= submaps {
                    return None;
                }
                mux.push(s);
            },
            None => {
                return None;
            },
        }
        p = p + 4;
        left = left - 1;
    }
    Some(mux)
}

fn read_submaps(d: &Vec<u8>, from: u128, count: u32, floors: u32, residues: u32) -> (r: Option<
    (Vec<u32>, Vec<u32>, u128),
>)
    requires
        from <= 8 * d@.len(),
    ensures
        match r {
            Some(x) => {
                &&& submaps_at(
                    d@,
                    from as int,
                    count as int,
                    floors as int,
                    residues as int,
                    Seq::empty(),
                    Seq::empty(),
                ) == Some((x.0@, x.1@, x.2 as int))
                &&& x.2 <= 8 * d@.len()
                &&& x.0@.len() == x.1@.len()
                &&& forall|s: int| 0 <= s < x.0@.len() ==> (#[trigger] x.0@[s]) < floors
                &&& forall|s: int| 0 <= s < x.1@.len() ==> (#[trigger] x.1@[s]) < residues
            },
            None => submaps_at(
                d@,
                from as int,
                count as int,
                floors as int,
                residues as int,
                Seq::empty(),
                Seq::empty(),
            ) is None,
        },
{
    let mut p: u128 = from;
    let mut left: u32 = count;
    let mut f: Vec<u32> = Vec::new();
    let mut g: Vec<u32> = Vec::new();
    assert(f@ =~= Seq::empty());
    assert(g@ =~= Seq::empty());
    while left > 0
        invariant
            p <= 8 * d@.len(),
            f@.len() == g@.len(),
            forall|s: int| 0 <= s < f@.len() ==> (#[trigger] f@[s]) < floors,
            forall|s: int| 0 <= s < g@.len() ==> (#[trigger] g@[s]) < residues,
            submaps_at(
                d@,
                from as int,
                count as int,
                floors as int,
                residues as int,
                Seq::empty(),
                Seq::empty(),
            ) == submaps_at(
                d@,
                p as int,
                left as int,
                floors as int,
                residues as int,
                f@,
                g@,
            ),
        decreases left,
    {
        if get(d, p, 24).is_none() {
            return None;
        }
        let (a, b) = match (get(d, p + 8, 8), get(d, p + 16, 8)) {
            (Some(a), Some(b)) => (a, b),
            _ => {
                return None;
            },
        };
        if a >= floors || b >= residues {
            return None;
        }
        f.push(a);
        g.push(b);
        p = p + 24;
        left = left - 1;
    }
    Some((f, g, p))
}

fn zeros(n: u32) -> (r: Vec<u32>)
    ensures
        r@ == Seq::new(n as nat, |i: int| 0u32),
{
    let mut out: Vec<u32> = Vec::new();
    let mut i: u32 = 0;
    while i < n
        invariant
            i <= n,
            out@ =~= Seq::new(i as nat, |k: int| 0u32),
        decreases n - i,
    {
        out.push(0);
        i = i + 1;
    }
    out
}

fn read_mapping(d: &Vec<u8>, p: u128, channels: u32, floors: u32, residues: u32) -> (r: Option<
    (Mapping, u128),
>)
    requires
        p <= 8 * d@.len(),
        1 <= channels <= 255,
    ensures
        match r {
            Some(x) => mapping_at(d@, p as int, channels as int, floors as int, residues as int)
                == Some((x.0@, x.1 as int)) && x.1 <= 8 * d@.len() && mapping_in(
                x.0@,
                floors as nat,
                residues as nat,
            ) && x.0@.mux.len() == channels,
            None => mapping_at(
                d@,
                p as int,
                channels as int,
                floors as int,
                residues as int,
            ) is None,
        },
{
    proof {
        lemma2_to64();
        reveal_with_fuel(field, 2);
    }
    let total: u128 = d.len() as u128 * 8;
    if p + 17 > total {
        return None;
    }
    let kind: u32 = get(d, p, 16)?;
    let many: u32 = get(d, p + 16, 1)?;
    let (submaps, q): (u32, u128) = if many == 1 {
        if p + 21 > total {
            return None;
        }
        (get(d, p + 17, 4)? + 1, p + 21)
    } else {
        (1, p + 17)
    };
    if q + 1 > total || kind != 0 {
        return None;
    }
    let coupled: u32 = get(d, q, 1)?;
    let w: u8 = width_of(channels - 1);
    let end: u128 = if coupled == 1 {
        let steps: u32 = match get(d, q + 1, 8) {
            Some(n) => n,
            None => {
                proof {
                    lemma_coupling(d@, q as int, channels as int);
                }
                return None;
            },
        };
        proof {
            assert((steps + 1) * 2 * w <= 256 * 2 * 32 && 0 <= (steps + 1) * 2 * w && 0 <= (steps
                + 1) * 2 <= 512) by (nonlinear_arith)
                requires
                    0 <= steps < 256,
                    0 <= w <= 32,
            ;
        }
        q + 9 + ((steps + 1) * 2 * w as u32) as u128
    } else {
        q + 1
    };
    let r: u128 = end + 2;
    if r > total {
        return None;
    }
    let (mux, t): (Vec<u32>, u128) = if submaps > 1 {
        (read_mux(d, r, channels, submaps)?, r + 4 * channels as u128)
    } else {
        (zeros(channels), r)
    };
    let (f, g, stop) = read_submaps(d, t, submaps, floors, residues)?;
    Some((Mapping { mux, floors: f, residues: g }, stop))
}

/// Coupled steps never end before they begin.
proof fn lemma_coupling(d: Seq<u8>, p: int, channels: int)
    requires
        bit(d, p) == 1,
    ensures
        coupling_end(d, p, channels) >= p + 9,
{
    crate::asset::vorbis::bits::lemma_field_bound(d, p + 1, 8);
    let n = field(d, p + 1, 8);
    let w = width(channels - 1);
    assert((n + 1) * 2 * w >= 0) by (nonlinear_arith)
        requires
            n >= 0,
            w >= 0,
    ;
}

/// The mappings of a setup header.
pub open spec fn mapping_views(m: Seq<Mapping>) -> Seq<MappingView> {
    m.map_values(|x: Mapping| x@)
}

pub(crate) fn read_mappings(
    d: &Vec<u8>,
    from: u128,
    count: u32,
    channels: u32,
    floors: u32,
    residues: u32,
) -> (r: Option<(Vec<Mapping>, u128)>)
    requires
        from <= 8 * d@.len(),
        1 <= channels <= 255,
    ensures
        match r {
            Some(x) => {
                &&& mappings_at(
                    d@,
                    from as int,
                    count as int,
                    channels as int,
                    floors as int,
                    residues as int,
                    Seq::empty(),
                ) == Some((mapping_views(x.0@), x.1 as int))
                &&& x.1 <= 8 * d@.len()
                &&& x.0@.len() == count
                &&& forall|i: int|
                    0 <= i < count ==> mapping_in(
                        (#[trigger] x.0@[i])@,
                        floors as nat,
                        residues as nat,
                    ) && x.0@[i]@.mux.len() == channels
            },
            None => mappings_at(
                d@,
                from as int,
                count as int,
                channels as int,
                floors as int,
                residues as int,
                Seq::empty(),
            ) is None,
        },
{
    let mut p: u128 = from;
    let mut left: u32 = count;
    let mut out: Vec<Mapping> = Vec::new();
    assert(mapping_views(out@) =~= Seq::empty());
    while left > 0
        invariant
            p <= 8 * d@.len(),
            left <= count,
            1 <= channels <= 255,
            out@.len() == count - left,
            forall|i: int|
                0 <= i < out@.len() ==> mapping_in(
                    (#[trigger] out@[i])@,
                    floors as nat,
                    residues as nat,
                ) && out@[i]@.mux.len() == channels,
            mappings_at(
                d@,
                from as int,
                count as int,
                channels as int,
                floors as int,
                residues as int,
                Seq::empty(),
            ) == mappings_at(
                d@,
                p as int,
                left as int,
                channels as int,
                floors as int,
                residues as int,
                mapping_views(out@),
            ),
        decreases left,
    {
        match read_mapping(d, p, channels, floors, residues) {
            Some((m, q)) => {
                let ghost before = out@;
                out.push(m);
                assert(mapping_views(out@) =~= mapping_views(before).push(m@));
                p = q;
            },
            None => {
                return None;
            },
        }
        left = left - 1;
    }
    Some((out, p))
}

pub(crate) fn read_modes(d: &Vec<u8>, from: u128, count: u32, mappings: u32) -> (r: Option<
    Vec<Mode>,
>)
    requires
        from <= 8 * d@.len(),
    ensures
        match r {
            Some(m) => {
                &&& modes_at(d@, from as int, count as int, mappings as int, Seq::empty()) == Some(
                    m@,
                )
                &&& forall|i: int| 0 <= i < m@.len() ==> (#[trigger] m@[i]).mapping < mappings
            },
            None => modes_at(d@, from as int, count as int, mappings as int, Seq::empty()) is None,
        },
{
    let mut p: u128 = from;
    let mut left: u32 = count;
    let mut modes: Vec<Mode> = Vec::new();
    assert(modes@ =~= Seq::empty());
    let total: u128 = d.len() as u128 * 8;
    while left > 0
        invariant
            p <= total,
            total == 8 * d@.len(),
            d@.len() <= usize::MAX,
            forall|i: int| 0 <= i < modes@.len() ==> (#[trigger] modes@[i]).mapping < mappings,
            modes_at(d@, from as int, count as int, mappings as int, Seq::empty()) == modes_at(
                d@,
                p as int,
                left as int,
                mappings as int,
                modes@,
            ),
        decreases left,
    {
        proof {
            lemma2_to64();
            reveal_with_fuel(field, 2);
        }
        if p + 41 > total {
            return None;
        }
        let (long, mapping) = match (get(d, p, 1), get(d, p + 33, 8)) {
            (Some(long), Some(mapping)) => (long, mapping),
            _ => {
                return None;
            },
        };
        if mapping >= mappings {
            return None;
        }
        modes.push(Mode { long: long == 1, mapping });
        p = p + 41;
        left = left - 1;
    }
    Some(modes)
}

} // verus!
