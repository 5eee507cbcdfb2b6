//! The codebooks of a setup header.
use vstd::prelude::*;

use vstd::arithmetic::power::lemma_pow0;
use vstd::arithmetic::power::lemma_pow_increases;
use vstd::arithmetic::power::pow;
use vstd::arithmetic::power2::lemma2_to64;

use crate::asset::vorbis::bits::bit;
use crate::asset::vorbis::bits::field;
use crate::asset::vorbis::bits::get;
use crate::asset::vorbis::bits::holds;
use crate::asset::vorbis::bits::width_of;
use crate::number::width;

verus! {

/// What is relied on of a codebook: how many numbers one of its vectors has,
/// the number behind the last entry with a codeword, zero where none has one,
/// and whether entries stand for vectors.
#[derive(Clone, Copy)]
pub struct Book {
    pub dims: u32,
    pub top: u32,
    pub lookup: bool,
}

/// The most numbers that a table of vectors may have. It is made whole before
/// anything is read from it.
pub const TABLE_NUMBERS: u64 = 0x100_0000;

/// The greatest number, from `v` on, whose power of `dims` is at most
/// `entries`.
pub open spec fn root_from(v: int, entries: int, dims: nat) -> int
    decreases entries - v,
{
    if v < entries && pow(v + 1, dims) <= entries {
        root_from(v + 1, entries, dims)
    } else {
        v
    }
}

fn power_at_most(base: u64, dims: u32, limit: u64) -> (r: bool)
    requires
        1 <= base <= 0x100_0000,
        limit <= 0x100_0000,
    ensures
        r == (pow(base as int, dims as nat) <= limit),
{
    let mut product: u64 = 1;
    let mut i: u32 = 0;
    proof {
        lemma_pow0(base as int);
    }
    while i < dims
        invariant
            1 <= base <= 0x100_0000,
            limit <= 0x100_0000,
            i <= dims,
            product == pow(base as int, i as nat),
            product <= limit || i == 0,
            product <= 0x100_0000,
        decreases dims - i,
    {
        proof {
            reveal(pow);
            assert(0 <= product * base <= 0x1_0000_0000_0000) by (nonlinear_arith)
                requires
                    0 <= product <= 0x100_0000,
                    1 <= base <= 0x100_0000,
            ;
            assert(base * product == product * base) by (nonlinear_arith);
        }
        product = product * base;
        i = i + 1;
        assert(product == pow(base as int, i as nat));
        if product > limit {
            proof {
                lemma_pow_increases(base as nat, i as nat, dims as nat);
            }
            return false;
        }
    }
    product <= limit
}

fn root_of(entries: u32, dims: u32) -> (r: u32)
    requires
        entries < 0x100_0000,
    ensures
        r == root_from(0, entries as int, dims as nat),
        r <= entries,
{
    let mut v: u32 = 0;
    while v < entries && power_at_most(v as u64 + 1, dims, entries as u64)
        invariant
            v <= entries < 0x100_0000,
            root_from(v as int, entries as int, dims as nat) == root_from(
                0,
                entries as int,
                dims as nat,
            ),
        decreases entries - v,
    {
        v = v + 1;
    }
    v
}

/// The lengths of the entries from `i` on that may each be absent: the number
/// behind the last that is there, `top` where none is, and where they end.
pub open spec fn sparse_at(d: Seq<u8>, p: int, i: int, entries: int, top: int) -> Option<(int, int)>
    decreases entries - i,
{
    if i >= entries {
        Some((top, p))
    } else if !holds(d, p, 1) {
        None
    } else if bit(d, p) == 0 {
        sparse_at(d, p + 1, i + 1, entries, top)
    } else if !holds(d, p, 6) {
        None
    } else {
        sparse_at(d, p + 6, i + 1, entries, i + 1)
    }
}

/// Where the lengths of `left` entries end that are given by how many there
/// are of each length, from `length` on. A length is counted in eight bits.
pub open spec fn ordered_at(d: Seq<u8>, p: int, left: int, length: int) -> Option<int>
    decreases 255 - length,
{
    if left == 0 {
        Some(p)
    } else if left < 0 || length >= 255 || !holds(d, p, width(left) as int) {
        None
    } else {
        ordered_at(
            d,
            p + width(left),
            left - field(d, p, width(left)),
            length + 1,
        )
    }
}

/// The lengths of the codewords: the number behind the last entry that has
/// one, and where they end.
pub open spec fn lengths_at(d: Seq<u8>, p: int, entries: int) -> Option<(int, int)> {
    if !holds(d, p, 6) {
        None
    } else if bit(d, p) == 1 {
        match ordered_at(d, p + 6, entries, field(d, p + 1, 5) + 1) {
            Some(q) => Some((entries, q)),
            None => None,
        }
    } else if bit(d, p + 1) == 1 {
        sparse_at(d, p + 2, 0, entries, 0)
    } else if holds(d, p + 2, 5 * entries) {
        Some((entries, p + 2 + 5 * entries))
    } else {
        None
    }
}

/// A table of vectors of this kind can be made.
pub open spec fn table_fits(kind: int, dims: int, entries: int) -> bool {
    (kind == 1 ==> dims > 0) && entries * dims <= TABLE_NUMBERS
}

/// The vectors of the entries: whether there are any, and where they end.
pub open spec fn lookup_at(d: Seq<u8>, p: int, dims: int, entries: int) -> Option<(bool, int)> {
    let kind = field(d, p, 4);
    if !holds(d, p, 4) || kind > 2 {
        None
    } else if kind == 0 {
        Some((false, p + 4))
    } else if !holds(d, p, 73) || !table_fits(kind, dims, entries) {
        None
    } else {
        let values = if kind == 1 {
            root_from(0, entries, dims as nat)
        } else {
            entries * dims
        };
        let q = p + 73 + values * (field(d, p + 68, 4) + 1);
        if holds(d, q, 0) {
            Some((true, q))
        } else {
            None
        }
    }
}

/// The codebook from `p` on, and where it ends.
pub open spec fn book_at(d: Seq<u8>, p: int) -> Option<(Book, int)> {
    let dims = field(d, p + 24, 16);
    let entries = field(d, p + 40, 24);
    if !holds(d, p, 64) || field(d, p, 24) != 0x564342 {
        None
    } else {
        match lengths_at(d, p + 64, entries) {
            Some((top, q)) => match lookup_at(d, q, dims, entries) {
                Some((lookup, r)) => Some((Book { dims: dims as u32, top: top as u32, lookup }, r)),
                None => None,
            },
            None => None,
        }
    }
}

pub open spec fn books_at(d: Seq<u8>, p: int, left: int, books: Seq<Book>) -> Option<
    (Seq<Book>, int),
>
    decreases left,
{
    if left <= 0 {
        Some((books, p))
    } else {
        match book_at(d, p) {
            Some((b, q)) => books_at(d, q, left - 1, books.push(b)),
            None => None,
        }
    }
}

fn read_sparse(d: &Vec<u8>, from: u128, entries: u32) -> (r: Option<(u32, u128)>)
    requires
        from <= 8 * d@.len(),
    ensures
        match r {
            Some(x) => sparse_at(d@, from as int, 0, entries as int, 0) == Some(
                (x.0 as int, x.1 as int),
            ) && x.1 <= 8 * d@.len(),
            None => sparse_at(d@, from as int, 0, entries as int, 0) is None,
        },
{
    let mut p: u128 = from;
    let mut i: u32 = 0;
    let mut top: u32 = 0;
    while i < entries
        invariant
            p <= 8 * d@.len(),
            i <= entries,
            sparse_at(d@, from as int, 0, entries as int, 0) == sparse_at(
                d@,
                p as int,
                i as int,
                entries as int,
                top as int,
            ),
        decreases entries - i,
    {
        let there: u32 = match get(d, p, 1) {
            Some(b) => b,
            None => {
                return None;
            },
        };
        proof {
            reveal_with_fuel(field, 2);
        }
        i = i + 1;
        if there == 0 {
            p = p + 1;
        } else {
            if get(d, p, 6).is_none() {
                return None;
            }
            p = p + 6;
            top = i;
        }
    }
    Some((top, p))
}

fn read_ordered(d: &Vec<u8>, from: u128, entries: u32, shortest: u32) -> (r: Option<u128>)
    requires
        from <= 8 * d@.len(),
        1 <= shortest <= 32,
    ensures
        match r {
            Some(x) => ordered_at(d@, from as int, entries as int, shortest as int) == Some(
                x as int,
            ) && x <= 8 * d@.len(),
            None => ordered_at(d@, from as int, entries as int, shortest as int) is None,
        },
{
    let mut p: u128 = from;
    let mut left: u32 = entries;
    let mut length: u32 = shortest;
    while left > 0
        invariant
            p <= 8 * d@.len(),
            length <= 255,
            ordered_at(d@, from as int, entries as int, shortest as int) == ordered_at(
                d@,
                p as int,
                left as int,
                length as int,
            ),
        decreases 255 - length,
    {
        if length >= 255 {
            return None;
        }
        let w: u8 = width_of(left);
        let n: u32 = match get(d, p, w) {
            Some(n) => n,
            None => {
                return None;
            },
        };
        if n > left {
            assert(ordered_at(d@, p + w, left - n, length + 1) is None);
            return None;
        }
        p = p + w as u128;
        left = left - n;
        length = length + 1;
    }
    Some(p)
}

fn read_lengths(d: &Vec<u8>, p: u128, entries: u32) -> (r: Option<(u32, u128)>)
    requires
        p <= 8 * d@.len(),
    ensures
        match r {
            Some(x) => lengths_at(d@, p as int, entries as int) == Some(
                (x.0 as int, x.1 as int),
            ) && x.1 <= 8 * d@.len(),
            None => lengths_at(d@, p as int, entries as int) is None,
        },
{
    if get(d, p, 6).is_none() {
        return None;
    }
    proof {
        reveal_with_fuel(field, 2);
        lemma2_to64();
    }
    let ordered: u32 = get(d, p, 1)?;
    if ordered == 1 {
        let shortest: u32 = get(d, p + 1, 5)?;
        match read_ordered(d, p + 6, entries, shortest + 1) {
            Some(q) => Some((entries, q)),
            None => None,
        }
    } else {
        let sparse: u32 = get(d, p + 1, 1)?;
        if sparse == 1 {
            read_sparse(d, p + 2, entries)
        } else {
            let q: u128 = p + 2 + 5 * entries as u128;
            if q <= d.len() as u128 * 8 {
                Some((entries, q))
            } else {
                None
            }
        }
    }
}

fn read_lookup(d: &Vec<u8>, p: u128, dims: u32, entries: u32) -> (r: Option<(bool, u128)>)
    requires
        p <= 8 * d@.len(),
        dims < 0x1_0000,
        entries < 0x100_0000,
    ensures
        match r {
            Some(x) => lookup_at(d@, p as int, dims as int, entries as int) == Some(
                (x.0, x.1 as int),
            ) && x.1 <= 8 * d@.len(),
            None => lookup_at(d@, p as int, dims as int, entries as int) is None,
        },
{
    let kind: u32 = get(d, p, 4)?;
    if kind > 2 {
        return None;
    }
    if kind == 0 {
        return Some((false, p + 4));
    }
    let total: u128 = d.len() as u128 * 8;
    if p + 73 > total {
        return None;
    }
    let bits: u32 = get(d, p + 68, 4)?;
    proof {
        lemma2_to64();
        assert(0 <= entries * dims < 0x100_0000_0000) by (nonlinear_arith)
            requires
                0 <= entries < 0x100_0000,
                0 <= dims < 0x1_0000,
        ;
    }
    let numbers: u64 = entries as u64 * dims as u64;
    if (kind == 1 && dims == 0) || numbers > TABLE_NUMBERS {
        return None;
    }
    let values: u128 = if kind == 1 {
        root_of(entries, dims) as u128
    } else {
        numbers as u128
    };
    proof {
        assert(0 <= values * (bits + 1) <= 16 * values) by (nonlinear_arith)
            requires
                0 <= values,
                0 <= bits < 16,
        ;
    }
    let q: u128 = p + 73 + values * (bits as u128 + 1);
    if q <= total {
        Some((true, q))
    } else {
        None
    }
}

fn read_book(d: &Vec<u8>, p: u128) -> (r: Option<(Book, u128)>)
    requires
        p <= 8 * d@.len(),
    ensures
        match r {
            Some(x) => book_at(d@, p as int) == Some((x.0, x.1 as int)) && x.1 <= 8 * d@.len(),
            None => book_at(d@, p as int) is None,
        },
{
    let total: u128 = d.len() as u128 * 8;
    if p + 64 > total {
        return None;
    }
    proof {
        lemma2_to64();
    }
    let sync: u32 = get(d, p, 24)?;
    let dims: u32 = get(d, p + 24, 16)?;
    let entries: u32 = get(d, p + 40, 24)?;
    if sync != 0x564342 {
        return None;
    }
    let (top, q) = read_lengths(d, p + 64, entries)?;
    let (lookup, end) = read_lookup(d, q, dims, entries)?;
    Some((Book { dims, top, lookup }, end))
}

pub(crate) fn read_books(d: &Vec<u8>, from: u128, count: u32) -> (r: Option<(Vec<Book>, u128)>)
    requires
        from <= 8 * d@.len(),
    ensures
        match r {
            Some(x) => books_at(d@, from as int, count as int, Seq::empty()) == Some(
                (x.0@, x.1 as int),
            ) && x.1 <= 8 * d@.len(),
            None => books_at(d@, from as int, count as int, Seq::empty()) is None,
        },
{
    let mut p: u128 = from;
    let mut left: u32 = count;
    let mut books: Vec<Book> = Vec::new();
    assert(books@ =~= Seq::empty());
    while left > 0
        invariant
            p <= 8 * d@.len(),
            books_at(d@, from as int, count as int, Seq::empty()) == books_at(
                d@,
                p as int,
                left as int,
                books@,
            ),
        decreases left,
    {
        match read_book(d, p) {
            Some((b, q)) => {
                books.push(b);
                p = q;
            },
            None => {
                return None;
            },
        }
        left = left - 1;
    }
    Some((books, p))
}

/// The book `i` can be read from, where it is there.
pub open spec fn readable(books: Seq<Book>, i: int) -> bool {
    0 <= i < books.len() && books[i].top > 0
}

pub(crate) fn is_readable(books: &Vec<Book>, i: u32) -> (r: bool)
    ensures
        r == readable(books@, i as int),
{
    (i as usize) < books.len() && books[i as usize].top > 0
}

} // verus!
