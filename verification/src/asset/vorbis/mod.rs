//! The headers of a Vorbis stream, read as far as a decoder has to rely on
//! them.
//!
//! A header that says what no decoder can follow (a codebook without
//! codewords that is read from, a floor of no order, more samples in a block
//! than can be counted) is told apart here, before anything is decoded.
pub mod bits;
pub mod books;
pub mod floors;
pub mod mappings;
pub mod residues;

use vstd::prelude::*;

use vstd::arithmetic::power2::lemma2_to64;
use vstd::arithmetic::power2::pow2;

use crate::asset::vorbis::bits::field;
use crate::asset::vorbis::bits::get;
use crate::asset::vorbis::bits::holds;
use crate::asset::vorbis::books::books_at;
use crate::asset::vorbis::books::read_books;
use crate::asset::vorbis::floors::floors_at;
use crate::asset::vorbis::floors::read_floors;
use crate::asset::vorbis::mappings::mapping_in;
use crate::asset::vorbis::mappings::mapping_views;
use crate::asset::vorbis::mappings::mappings_at;
use crate::asset::vorbis::mappings::modes_at;
use crate::asset::vorbis::mappings::read_mappings;
use crate::asset::vorbis::mappings::read_modes;
use crate::asset::vorbis::mappings::Mapping;
use crate::asset::vorbis::mappings::MappingView;
use crate::asset::vorbis::mappings::Mode;
use crate::asset::vorbis::residues::read_residues;
use crate::asset::vorbis::residues::residues_at;
use crate::asset::vorbis::residues::Residue;

verus! {

/// The number in the four bytes from `i` on, the lowest first.
pub open spec fn le32_at(d: Seq<u8>, i: int) -> int {
    d[i] + 0x100 * d[i + 1] + 0x1_0000 * d[i + 2] + 0x100_0000 * d[i + 3]
}

fn read_le32(d: &Vec<u8>, i: usize) -> (r: u32)
    requires
        i + 4 <= d@.len(),
    ensures
        r == le32_at(d@, i as int),
{
    assert(d.len() == d@.len());
    d[i] as u32 + 0x100 * d[i + 1] as u32 + 0x1_0000 * d[i + 2] as u32 + 0x100_0000 * d[i + 3] as u32
}

/// The packet begins as a header of the kind `kind` does.
pub open spec fn is_header(d: Seq<u8>, kind: u8) -> bool {
    &&& d.len() >= 7
    &&& d[0] == kind
    &&& d[1] == 0x76
    &&& d[2] == 0x6f
    &&& d[3] == 0x72
    &&& d[4] == 0x62
    &&& d[5] == 0x69
    &&& d[6] == 0x73
}

fn test_header(d: &Vec<u8>, kind: u8) -> (r: bool)
    ensures
        r == is_header(d@, kind),
{
    d.len() >= 7 && d[0] == kind && d[1] == 0x76 && d[2] == 0x6f && d[3] == 0x72 && d[4] == 0x62
        && d[5] == 0x69 && d[6] == 0x73
}

/// The packet is a first header that a decoder takes: of version 0, with a
/// channel and a rate, and with blocks of 64 to 8192 samples, the short ones
/// not longer than the long ones.
pub open spec fn is_ident(d: Seq<u8>) -> bool {
    &&& is_header(d, 1)
    &&& d.len() >= 30
    &&& le32_at(d, 7) == 0
    &&& d[11] > 0
    &&& le32_at(d, 12) > 0
    &&& 6 <= d[28] % 16 <= d[28] / 16 <= 13
    &&& d[29] == 1
}

pub(crate) fn test_ident(d: &Vec<u8>) -> (r: bool)
    ensures
        r == is_ident(d@),
{
    test_header(d, 1) && d.len() >= 30 && read_le32(d, 7) == 0 && d[11] > 0 && read_le32(d, 12) > 0
        && 6 <= d[28] % 16 && d[28] % 16 <= d[28] / 16 && d[28] / 16 <= 13 && d[29] == 1
}

/// How long a block is, by the first header.
pub open spec fn block_len(ident: Seq<u8>, long: bool) -> nat {
    pow2(
        if long {
            (ident[28] / 16) as nat
        } else {
            (ident[28] % 16) as nat
        },
    )
}

fn read_block_len(ident: &Vec<u8>, long: bool) -> (r: u32)
    requires
        is_ident(ident@),
    ensures
        r == block_len(ident@, long),
        r <= 8192,
{
    let e: u8 = if long {
        ident[28] / 16
    } else {
        ident[28] % 16
    };
    proof {
        lemma2_to64();
    }
    if e == 6 {
        64
    } else if e == 7 {
        128
    } else if e == 8 {
        256
    } else if e == 9 {
        512
    } else if e == 10 {
        1024
    } else if e == 11 {
        2048
    } else if e == 12 {
        4096
    } else {
        8192
    }
}

/// There are `left` comments from `i` on, each as long as it says.
pub open spec fn comments_at(d: Seq<u8>, i: int, left: int) -> bool
    decreases left,
{
    if left <= 0 {
        true
    } else {
        i + 4 <= d.len() && i + 4 + le32_at(d, i) <= d.len() && comments_at(
            d,
            i + 4 + le32_at(d, i),
            left - 1,
        )
    }
}

/// The second header holds the texts that it says it holds.
pub open spec fn comment_sound(d: Seq<u8>) -> bool {
    let i = 11 + le32_at(d, 7);
    d.len() >= 11 && i + 4 <= d.len() && comments_at(d, i + 4, le32_at(d, i))
}

pub(crate) fn test_comment(d: &Vec<u8>) -> (r: bool)
    ensures
        r == comment_sound(d@),
{
    let len: usize = d.len();
    if len < 11 {
        return false;
    }
    let vendor: u32 = read_le32(d, 7);
    if len - 11 < 4 || vendor as u64 > (len - 15) as u64 {
        return false;
    }
    let mut i: usize = 11 + vendor as usize;
    let mut left: u32 = read_le32(d, i);
    i = i + 4;
    while left > 0
        invariant
            len == d@.len(),
            i <= len,
            comment_sound(d@) == comments_at(d@, i as int, left as int),
        decreases left,
    {
        if len - i < 4 {
            return false;
        }
        let n: u32 = read_le32(d, i);
        if n as u64 > (len - i - 4) as u64 {
            return false;
        }
        i = i + 4 + n as usize;
        left = left - 1;
    }
    true
}

/// How many of the first `n` channels are in the submap `s`.
pub open spec fn channels_in(mux: Seq<u32>, s: int, n: nat) -> nat
    decreases n,
{
    if n == 0 {
        0
    } else {
        channels_in(mux, s, (n - 1) as nat) + (if mux[n - 1] == s {
            1nat
        } else {
            0
        })
    }
}

fn count_channels(mux: &Vec<u32>, s: usize) -> (r: u64)
    ensures
        r == channels_in(mux@, s as int, mux@.len()),
        r <= mux@.len(),
{
    let mut n: u64 = 0;
    let mut i: usize = 0;
    while i < mux.len()
        invariant
            0 <= i <= mux@.len(),
            n == channels_in(mux@, s as int, i as nat),
            n <= i,
        decreases mux@.len() - i,
    {
        if mux[i] as usize == s {
            n = n + 1;
        }
        i += 1;
    }
    n
}

/// The floor and the residue of the submap `s` can be followed in blocks of
/// `block` samples, where any channel is in it. A residue of the third type
/// holds the channels of a block in turn, and counts the samples of all in 16
/// bits.
pub open spec fn submap_sound(
    m: MappingView,
    s: int,
    block: nat,
    floors: Seq<bool>,
    residues: Seq<Residue>,
) -> bool {
    let n = channels_in(m.mux, s, m.mux.len());
    let r = residues[m.residues[s] as int];
    n > 0 ==> floors[m.floors[s] as int] && (r.idle || r.sound) && (r.kind == 2 ==> n * block
        <= 0xffff)
}

/// Packets of the mode can be followed.
pub open spec fn mode_sound(
    mode: Mode,
    mappings: Seq<MappingView>,
    ident: Seq<u8>,
    floors: Seq<bool>,
    residues: Seq<Residue>,
) -> bool {
    let m = mappings[mode.mapping as int];
    forall|s: int|
        0 <= s < m.floors.len() ==> #[trigger] submap_sound(
            m,
            s,
            block_len(ident, mode.long),
            floors,
            residues,
        )
}

fn test_mode(
    mode: Mode,
    mappings: &Vec<Mapping>,
    ident: &Vec<u8>,
    floors: &Vec<bool>,
    residues: &Vec<Residue>,
) -> (r: bool)
    requires
        is_ident(ident@),
        mode.mapping < mappings@.len(),
        mapping_in(mappings@[mode.mapping as int]@, floors@.len(), residues@.len()),
        mappings@[mode.mapping as int]@.mux.len() <= 255,
    ensures
        r == mode_sound(mode, mapping_views(mappings@), ident@, floors@, residues@),
{
    let m = &mappings[mode.mapping as usize];
    assert(mapping_views(mappings@)[mode.mapping as int] == m@);
    let block: u64 = read_block_len(ident, mode.long) as u64;
    let mut s: usize = 0;
    while s < m.floors.len()
        invariant
            0 <= s <= m.floors@.len(),
            m@ == mapping_views(mappings@)[mode.mapping as int],
            mapping_in(m@, floors@.len(), residues@.len()),
            m@.mux.len() <= 255,
            block == block_len(ident@, mode.long),
            block <= 8192,
            forall|k: int|
                0 <= k < s ==> #[trigger] submap_sound(
                    m@,
                    k,
                    block_len(ident@, mode.long),
                    floors@,
                    residues@,
                ),
        decreases m.floors@.len() - s,
    {
        let n: u64 = count_channels(&m.mux, s);
        assert(m@.floors[s as int] < floors@.len());
        assert(m@.residues[s as int] < residues@.len());
        let r = residues[m.residues[s] as usize];
        proof {
            assert(0 <= n * block <= 255 * 8192) by (nonlinear_arith)
                requires
                    0 <= n <= 255,
                    0 <= block <= 8192,
            ;
        }
        let sound = n == 0 || (floors[m.floors[s] as usize] && (r.idle || r.sound) && (r.kind != 2
            || n * block <= 0xffff));
        assert(sound == submap_sound(
            m@,
            s as int,
            block_len(ident@, mode.long),
            floors@,
            residues@,
        ));
        if !sound {
            return false;
        }
        s += 1;
    }
    true
}

/// Packets of every mode can be followed.
pub open spec fn all_modes_sound(
    modes: Seq<Mode>,
    mappings: Seq<MappingView>,
    ident: Seq<u8>,
    floors: Seq<bool>,
    residues: Seq<Residue>,
) -> bool {
    forall|i: int|
        0 <= i < modes.len() ==> mode_sound(
            #[trigger] modes[i],
            mappings,
            ident,
            floors,
            residues,
        )
}

fn test_all_modes(
    modes: &Vec<Mode>,
    mappings: &Vec<Mapping>,
    ident: &Vec<u8>,
    floors: &Vec<bool>,
    residues: &Vec<Residue>,
) -> (r: bool)
    requires
        is_ident(ident@),
        forall|k: int|
            0 <= k < modes@.len() ==> (#[trigger] modes@[k]).mapping < mappings@.len(),
        forall|k: int|
            0 <= k < mappings@.len() ==> mapping_in(
                (#[trigger] mappings@[k])@,
                floors@.len(),
                residues@.len(),
            ) && mappings@[k]@.mux.len() <= 255,
    ensures
        r == all_modes_sound(modes@, mapping_views(mappings@), ident@, floors@, residues@),
{
    let mut i: usize = 0;
    while i < modes.len()
        invariant
            0 <= i <= modes@.len(),
            is_ident(ident@),
            forall|k: int|
                0 <= k < modes@.len() ==> (#[trigger] modes@[k]).mapping < mappings@.len(),
            forall|k: int|
                0 <= k < mappings@.len() ==> mapping_in(
                    (#[trigger] mappings@[k])@,
                    floors@.len(),
                    residues@.len(),
                ) && mappings@[k]@.mux.len() <= 255,
            forall|k: int|
                0 <= k < i ==> mode_sound(
                    #[trigger] modes@[k],
                    mapping_views(mappings@),
                    ident@,
                    floors@,
                    residues@,
                ),
        decreases modes@.len() - i,
    {
        assert(modes@[i as int].mapping < mappings@.len());
        if !test_mode(modes[i], mappings, ident, floors, residues) {
            return false;
        }
        i += 1;
    }
    true
}

/// What the third header says of the packets of a stream behind its residues,
/// from `p` on: every mode can be followed.
pub open spec fn modes_sound(
    d: Seq<u8>,
    p: int,
    ident: Seq<u8>,
    floors: Seq<bool>,
    residues: Seq<Residue>,
) -> bool {
    holds(d, p, 6) && match mappings_at(
        d,
        p + 6,
        field(d, p, 6) + 1,
        ident[11] as int,
        floors.len() as int,
        residues.len() as int,
        Seq::empty(),
    ) {
        Some((mappings, q)) => holds(d, q, 6) && match modes_at(
            d,
            q + 6,
            field(d, q, 6) + 1,
            field(d, p, 6) + 1,
            Seq::empty(),
        ) {
            Some(modes) => all_modes_sound(modes, mappings, ident, floors, residues),
            None => false,
        },
        None => false,
    }
}

fn test_modes(
    d: &Vec<u8>,
    p: u128,
    ident: &Vec<u8>,
    floors: &Vec<bool>,
    residues: &Vec<Residue>,
) -> (r: bool)
    requires
        p <= 8 * d@.len(),
        is_ident(ident@),
        floors@.len() <= 64,
        residues@.len() <= 64,
    ensures
        r == modes_sound(d@, p as int, ident@, floors@, residues@),
{
    proof {
        lemma2_to64();
    }
    let count: u32 = match get(d, p, 6) {
        Some(n) => n,
        None => {
            return false;
        },
    };
    let channels: u32 = ident[11] as u32;
    let (mappings, q) = match read_mappings(
        d,
        p + 6,
        count + 1,
        channels,
        floors.len() as u32,
        residues.len() as u32,
    ) {
        Some(x) => x,
        None => {
            return false;
        },
    };
    let many: u32 = match get(d, q, 6) {
        Some(n) => n,
        None => {
            return false;
        },
    };
    let modes = match read_modes(d, q + 6, many + 1, count + 1) {
        Some(m) => m,
        None => {
            return false;
        },
    };
    test_all_modes(&modes, &mappings, ident, floors, residues)
}

/// The third header says nothing that a decoder cannot follow in a stream with
/// the first header `ident`.
#[verifier::opaque]
pub open spec fn setup_sound(d: Seq<u8>, ident: Seq<u8>) -> bool {
    is_header(d, 5) && holds(d, 56, 8) && match books_at(
        d,
        64,
        field(d, 56, 8) + 1,
        Seq::empty(),
    ) {
        Some((books, p)) => {
            let q = p + 6 + 16 * (field(d, p, 6) + 1);
            holds(d, p, 6) && holds(d, q, 6) && match floors_at(
                d,
                q + 6,
                field(d, q, 6) + 1,
                books,
                Seq::empty(),
            ) {
                Some((floors, r)) => holds(d, r, 6) && match residues_at(
                    d,
                    r + 6,
                    field(d, r, 6) + 1,
                    books,
                    Seq::empty(),
                ) {
                    Some((residues, t)) => modes_sound(d, t, ident, floors, residues),
                    None => false,
                },
                None => false,
            }
        },
        None => false,
    }
}

pub(crate) fn test_setup(d: &Vec<u8>, ident: &Vec<u8>) -> (r: bool)
    requires
        is_ident(ident@),
    ensures
        r == setup_sound(d@, ident@),
{
    reveal(setup_sound);
    if !test_header(d, 5) {
        return false;
    }
    proof {
        lemma2_to64();
    }
    let total: u128 = d.len() as u128 * 8;
    let count: u32 = match get(d, 56, 8) {
        Some(n) => n,
        None => {
            return false;
        },
    };
    let (books, p) = match read_books(d, 64, count + 1) {
        Some(x) => x,
        None => {
            return false;
        },
    };
    let transforms: u32 = match get(d, p, 6) {
        Some(n) => n,
        None => {
            return false;
        },
    };
    let q: u128 = p + 6 + 16 * (transforms as u128 + 1);
    if q > total {
        return false;
    }
    let floor_count: u32 = match get(d, q, 6) {
        Some(n) => n,
        None => {
            return false;
        },
    };
    let (floors, end) = match read_floors(d, q + 6, floor_count + 1, &books) {
        Some(x) => x,
        None => {
            return false;
        },
    };
    let residue_count: u32 = match get(d, end, 6) {
        Some(n) => n,
        None => {
            return false;
        },
    };
    let (residues, stop) = match read_residues(d, end + 6, residue_count + 1, &books) {
        Some(x) => x,
        None => {
            return false;
        },
    };
    test_modes(d, stop, ident, &floors, &residues)
}

} // verus!
