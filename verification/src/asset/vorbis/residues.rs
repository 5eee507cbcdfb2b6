//! The residues of a setup header.
use vstd::prelude::*;

use vstd::arithmetic::power2::lemma2_to64;

use crate::asset::vorbis::bits::bit;
use crate::asset::vorbis::bits::field;
use crate::asset::vorbis::bits::get;
use crate::asset::vorbis::bits::holds;
use crate::asset::vorbis::bits::weight;
use crate::asset::vorbis::bits::weight_of;
use crate::asset::vorbis::books::is_readable;
use crate::asset::vorbis::books::readable;
use crate::asset::vorbis::books::Book;

verus! {

/// What is relied on of a residue: its type, whether it is shorter than a
/// partition, so that none is read, and whether its books can be followed.
#[derive(Clone, Copy)]
pub struct Residue {
    pub kind: u32,
    pub idle: bool,
    pub sound: bool,
}

/// Vectors of the book `i` can be read from in a residue of the type `kind`.
/// In the first type a vector is spread over a partition, so it is not empty.
pub open spec fn usable(books: Seq<Book>, i: int, kind: u32) -> bool {
    readable(books, i) && books[i].lookup && (kind == 0 ==> books[i].dims > 0)
}

fn is_usable(books: &Vec<Book>, i: u32, kind: u32) -> (r: bool)
    ensures
        r == usable(books@, i as int, kind),
{
    is_readable(books, i) && books[i as usize].lookup && (kind != 0 || books[i as usize].dims > 0)
}

/// Which stages each of `left` classes has, behind `cascade`: a number of
/// eight bits, one for each stage. And where they end.
pub open spec fn cascade_at(d: Seq<u8>, p: int, left: int, cascade: Seq<u32>) -> Option<
    (Seq<u32>, int),
>
    decreases left,
{
    if left <= 0 {
        Some((cascade, p))
    } else if !holds(d, p, 4) {
        None
    } else if bit(d, p + 3) == 0 {
        cascade_at(d, p + 4, left - 1, cascade.push(field(d, p, 3) as u32))
    } else if !holds(d, p, 9) {
        None
    } else {
        cascade_at(
            d,
            p + 9,
            left - 1,
            cascade.push((field(d, p + 4, 5) * 8 + field(d, p, 3)) as u32),
        )
    }
}

/// The books of the stages from `i` on that `stages` has: whether they can be
/// followed, those before being so as `sound` says, and where they end. Each
/// has vectors. The last of the eight has no book of its own and takes the
/// first.
pub open spec fn stages_at(
    d: Seq<u8>,
    p: int,
    stages: u32,
    i: int,
    books: Seq<Book>,
    r: Residue,
) -> Option<(Residue, int)>
    decreases 7 - i,
{
    let b = field(d, p, 8);
    if i >= 7 {
        Some(
            (
                Residue { sound: r.sound && (stages >= 128 ==> usable(books, 0, r.kind)), ..r },
                p,
            ),
        )
    } else if (stages as int / weight(i)) % 2 == 0 {
        stages_at(d, p, stages, i + 1, books, r)
    } else if !holds(d, p, 8) || b >= books.len() || !books[b].lookup {
        None
    } else {
        stages_at(
            d,
            p + 8,
            stages,
            i + 1,
            books,
            Residue { sound: r.sound && usable(books, b, r.kind), ..r },
        )
    }
}

pub open spec fn all_stages_at(
    d: Seq<u8>,
    p: int,
    cascade: Seq<u32>,
    i: int,
    books: Seq<Book>,
    r: Residue,
) -> Option<(Residue, int)>
    decreases cascade.len() - i,
{
    if i >= cascade.len() {
        Some((r, p))
    } else {
        match stages_at(d, p, cascade[i], 0, books, r) {
            Some((next, q)) => all_stages_at(d, q, cascade, i + 1, books, next),
            None => None,
        }
    }
}

/// A residue, and where it ends.
pub open spec fn residue_at(d: Seq<u8>, p: int, books: Seq<Book>) -> Option<(Residue, int)> {
    let kind = field(d, p, 16);
    let book = field(d, p + 94, 8);
    if !holds(d, p, 102) || kind > 2 || book >= books.len() {
        None
    } else {
        match cascade_at(d, p + 102, field(d, p + 88, 6) + 1, Seq::empty()) {
            Some((cascade, q)) => all_stages_at(
                d,
                q,
                cascade,
                0,
                books,
                Residue {
                    kind: kind as u32,
                    idle: field(d, p + 40, 24) - field(d, p + 16, 24) <= field(d, p + 64, 24),
                    sound: readable(books, book),
                },
            ),
            None => None,
        }
    }
}

pub open spec fn residues_at(
    d: Seq<u8>,
    p: int,
    left: int,
    books: Seq<Book>,
    residues: Seq<Residue>,
) -> Option<(Seq<Residue>, int)>
    decreases left,
{
    if left <= 0 {
        Some((residues, p))
    } else {
        match residue_at(d, p, books) {
            Some((r, q)) => residues_at(d, q, left - 1, books, residues.push(r)),
            None => None,
        }
    }
}

fn read_cascade(d: &Vec<u8>, from: u128, count: u32) -> (r: Option<(Vec<u32>, u128)>)
    requires
        from <= 8 * d@.len(),
    ensures
        match r {
            Some(x) => cascade_at(d@, from as int, count as int, Seq::empty()) == Some(
                (x.0@, x.1 as int),
            ) && x.1 <= 8 * d@.len(),
            None => cascade_at(d@, from as int, count as int, Seq::empty()) is None,
        },
{
    let mut p: u128 = from;
    let mut left: u32 = count;
    let mut cascade: Vec<u32> = Vec::new();
    assert(cascade@ =~= Seq::empty());
    while left > 0
        invariant
            p <= 8 * d@.len(),
            cascade_at(d@, from as int, count as int, Seq::empty()) == cascade_at(
                d@,
                p as int,
                left as int,
                cascade@,
            ),
        decreases left,
    {
        proof {
            lemma2_to64();
            reveal_with_fuel(field, 2);
        }
        if get(d, p, 4).is_none() {
            return None;
        }
        let (low, more) = match (get(d, p, 3), get(d, p + 3, 1)) {
            (Some(low), Some(more)) => (low, more),
            _ => {
                return None;
            },
        };
        if more == 0 {
            cascade.push(low);
            p = p + 4;
        } else {
            let high: u32 = match get(d, p + 4, 5) {
                Some(high) => high,
                None => {
                    return None;
                },
            };
            cascade.push(high * 8 + low);
            p = p + 9;
        }
        left = left - 1;
    }
    Some((cascade, p))
}

fn read_stages(
    d: &Vec<u8>,
    from: u128,
    stages: u32,
    books: &Vec<Book>,
    before: Residue,
) -> (r: Option<(Residue, u128)>)
    requires
        from <= 8 * d@.len(),
    ensures
        match r {
            Some(x) => stages_at(d@, from as int, stages, 0, books@, before) == Some(
                (x.0, x.1 as int),
            ) && x.1 <= 8 * d@.len(),
            None => stages_at(d@, from as int, stages, 0, books@, before) is None,
        },
{
    let mut p: u128 = from;
    let mut i: u8 = 0;
    let mut now = before;
    while i < 7
        invariant
            i <= 7,
            p <= 8 * d@.len(),
            stages_at(d@, from as int, stages, 0, books@, before) == stages_at(
                d@,
                p as int,
                stages,
                i as int,
                books@,
                now,
            ),
        decreases 7 - i,
    {
        if (stages / weight_of(i) as u32) % 2 != 0 {
            match get(d, p, 8) {
                Some(b) => {
                    if b as usize >= books.len() || !books[b as usize].lookup {
                        return None;
                    }
                    now.sound = now.sound && is_usable(books, b, now.kind);
                },
                None => {
                    return None;
                },
            }
            p = p + 8;
        }
        i = i + 1;
    }
    now.sound = now.sound && (stages < 128 || is_usable(books, 0, now.kind));
    Some((now, p))
}

fn read_all_stages(
    d: &Vec<u8>,
    from: u128,
    cascade: &Vec<u32>,
    books: &Vec<Book>,
    before: Residue,
) -> (r: Option<(Residue, u128)>)
    requires
        from <= 8 * d@.len(),
    ensures
        match r {
            Some(x) => all_stages_at(d@, from as int, cascade@, 0, books@, before) == Some(
                (x.0, x.1 as int),
            ) && x.1 <= 8 * d@.len(),
            None => all_stages_at(d@, from as int, cascade@, 0, books@, before) is None,
        },
{
    let mut p: u128 = from;
    let mut i: usize = 0;
    let mut now = before;
    while i < cascade.len()
        invariant
            i <= cascade@.len(),
            p <= 8 * d@.len(),
            all_stages_at(d@, from as int, cascade@, 0, books@, before) == all_stages_at(
                d@,
                p as int,
                cascade@,
                i as int,
                books@,
                now,
            ),
        decreases cascade@.len() - i,
    {
        match read_stages(d, p, cascade[i], books, now) {
            Some((next, q)) => {
                now = next;
                p = q;
            },
            None => {
                return None;
            },
        }
        i = i + 1;
    }
    Some((now, p))
}

fn read_residue(d: &Vec<u8>, p: u128, books: &Vec<Book>) -> (r: Option<(Residue, u128)>)
    requires
        p <= 8 * d@.len(),
    ensures
        match r {
            Some(x) => residue_at(d@, p as int, books@) == Some((x.0, x.1 as int)) && x.1 <= 8
                * d@.len(),
            None => residue_at(d@, p as int, books@) is None,
        },
{
    let total: u128 = d.len() as u128 * 8;
    if p + 102 > total {
        return None;
    }
    proof {
        lemma2_to64();
    }
    let kind: u32 = get(d, p, 16)?;
    let begin: u32 = get(d, p + 16, 24)?;
    let end: u32 = get(d, p + 40, 24)?;
    let partition: u32 = get(d, p + 64, 24)?;
    let classes: u32 = get(d, p + 88, 6)?;
    let book: u32 = get(d, p + 94, 8)?;
    if kind > 2 || book as usize >= books.len() {
        return None;
    }
    let (cascade, q) = read_cascade(d, p + 102, classes + 1)?;
    let sound = is_readable(books, book);
    let idle = end as u64 <= begin as u64 + partition as u64;
    read_all_stages(d, q, &cascade, books, Residue { kind, idle, sound })
}

pub(crate) fn read_residues(d: &Vec<u8>, from: u128, count: u32, books: &Vec<Book>) -> (r: Option<
    (Vec<Residue>, u128),
>)
    requires
        from <= 8 * d@.len(),
    ensures
        match r {
            Some(x) => residues_at(d@, from as int, count as int, books@, Seq::empty()) == Some(
                (x.0@, x.1 as int),
            ) && x.1 <= 8 * d@.len() && x.0@.len() == count,
            None => residues_at(d@, from as int, count as int, books@, Seq::empty()) is None,
        },
{
    let mut p: u128 = from;
    let mut left: u32 = count;
    let mut residues: Vec<Residue> = Vec::new();
    assert(residues@ =~= Seq::empty());
    while left > 0
        invariant
            p <= 8 * d@.len(),
            left <= count,
            residues@.len() == count - left,
            residues_at(d@, from as int, count as int, books@, Seq::empty()) == residues_at(
                d@,
                p as int,
                left as int,
                books@,
                residues@,
            ),
        decreases left,
    {
        match read_residue(d, p, books) {
            Some((r, q)) => {
                residues.push(r);
                p = q;
            },
            None => {
                return None;
            },
        }
        left = left - 1;
    }
    Some((residues, p))
}

} // verus!
