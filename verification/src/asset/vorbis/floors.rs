//! The floors of a setup header.
use vstd::prelude::*;

use vstd::arithmetic::power2::lemma2_to64;

use crate::asset::vorbis::bits::field;
use crate::asset::vorbis::bits::get;
use crate::asset::vorbis::bits::holds;
use crate::asset::vorbis::bits::lemma_field_bound;
use crate::asset::vorbis::bits::weight;
use crate::asset::vorbis::bits::weight_of;
use crate::asset::vorbis::books::is_readable;
use crate::asset::vorbis::books::readable;
use crate::asset::vorbis::books::Book;

verus! {

/// Where a list of `left` books ends, and whether all can be read from, those
/// before `p` being so as `sound` says.
pub open spec fn book_list_at(
    d: Seq<u8>,
    p: int,
    left: int,
    books: Seq<Book>,
    sound: bool,
) -> Option<(bool, int)>
    decreases left,
{
    if left <= 0 {
        Some((sound, p))
    } else if !holds(d, p, 8) {
        None
    } else {
        book_list_at(d, p + 8, left - 1, books, sound && readable(books, field(d, p, 8)))
    }
}

/// A floor of the older type, from behind its type on, by an order, a rate, a
/// map and an amplitude of so many bits: whether it can be followed, and where
/// it ends. An amplitude of no bits is zero, and nothing else is then read.
pub open spec fn curve_floor_at(d: Seq<u8>, p: int, books: Seq<Book>) -> Option<(bool, int)> {
    let amplitude = field(d, p + 40, 6);
    if !holds(d, p, 58) {
        None
    } else {
        match book_list_at(
            d,
            p + 58,
            field(d, p + 54, 4) + 1,
            books,
            field(d, p, 8) >= 2 && field(d, p + 8, 16) > 0 && field(d, p + 24, 16) > 0 && amplitude
                <= 30,
        ) {
            Some((sound, q)) => Some((sound || amplitude == 0, q)),
            None => None,
        }
    }
}

/// How many classes the `n` partitions from `p` on speak of.
pub open spec fn classes_used(d: Seq<u8>, p: int, n: nat) -> int
    decreases n,
{
    if n == 0 {
        0
    } else {
        let before = classes_used(d, p, (n - 1) as nat);
        let c = field(d, p + 4 * (n - 1), 4) + 1;
        if c > before {
            c
        } else {
            before
        }
    }
}

/// What is relied on of the books of a floor: whether all can be read from,
/// and the largest number that any gives, and one.
#[derive(Clone, Copy)]
pub struct FloorBooks {
    pub sound: bool,
    pub widest: u32,
}

/// With the book `b` more.
pub open spec fn with_book(f: FloorBooks, books: Seq<Book>, b: int) -> FloorBooks {
    FloorBooks {
        sound: f.sound && readable(books, b),
        widest: if books[b].top > f.widest {
            books[b].top
        } else {
            f.widest
        },
    }
}

/// The books of `left` subclasses, behind `f`, and where they end. A book is
/// given by its number and one, none by zero.
pub open spec fn subclasses_at(
    d: Seq<u8>,
    p: int,
    left: int,
    books: Seq<Book>,
    f: FloorBooks,
) -> Option<(FloorBooks, int)>
    decreases left,
{
    let b = field(d, p, 8) - 1;
    if left <= 0 {
        Some((f, p))
    } else if !holds(d, p, 8) || b >= books.len() {
        None
    } else if b >= 0 {
        subclasses_at(d, p + 8, left - 1, books, with_book(f, books, b))
    } else {
        subclasses_at(d, p + 8, left - 1, books, f)
    }
}

/// One of the `n` partitions from `p` on is of the class `c`.
pub open spec fn class_occurs(d: Seq<u8>, p: int, n: nat, c: int) -> bool {
    exists|i: int| 0 <= i < n && #[trigger] field(d, p + 4 * i, 4) == c
}

/// Of `left` classes behind those that `dims` has the values of: how many
/// values each has, their books, behind `f`, and where they end. The books of a
/// class count where one of the `n` partitions from `from` on is of it.
pub open spec fn classes_at(
    d: Seq<u8>,
    p: int,
    left: int,
    books: Seq<Book>,
    from: int,
    n: nat,
    dims: Seq<u32>,
    f: FloorBooks,
) -> Option<(Seq<u32>, FloorBooks, int)>
    decreases left,
{
    let sub = field(d, p + 3, 2);
    let master = field(d, p + 5, 8);
    let (q, g) = if sub == 0 {
        (p + 5, f)
    } else {
        (p + 13, FloorBooks { sound: f.sound && readable(books, master), ..f })
    };
    if left <= 0 {
        Some((dims, f, p))
    } else if !holds(d, p, 5) || !holds(d, q, 0) || (sub != 0 && master >= books.len()) {
        None
    } else {
        match subclasses_at(d, q, weight(sub), books, g) {
            Some((h, r)) => classes_at(
                d,
                r,
                left - 1,
                books,
                from,
                n,
                dims.push((field(d, p, 3) + 1) as u32),
                if class_occurs(d, from, n, dims.len() as int) {
                    h
                } else {
                    f
                },
            ),
            None => None,
        }
    }
}

/// How many values the `n` partitions from `p` on have, by their classes.
pub open spec fn values_of(d: Seq<u8>, p: int, n: nat, dims: Seq<u32>) -> int
    decreases n,
{
    if n == 0 {
        0
    } else {
        values_of(d, p, (n - 1) as nat, dims) + dims[field(d, p + 4 * (n - 1), 4)]
    }
}

/// The range of a floor's values by its multiplier.
pub open spec fn range_of(multiplier: int) -> int {
    if multiplier == 0 {
        256
    } else if multiplier == 1 {
        128
    } else if multiplier == 2 {
        86
    } else {
        64
    }
}

/// No book of a floor has been looked at.
pub open spec fn no_books() -> FloorBooks {
    FloorBooks { sound: true, widest: 0 }
}

/// A floor of line segments, from behind its type on: whether it can be
/// followed, none of its books giving more than the floor has values, and
/// where it ends.
pub open spec fn line_floor_at(d: Seq<u8>, p: int, books: Seq<Book>) -> Option<(bool, int)> {
    let n = field(d, p, 5);
    if !holds(d, p, 5 + 4 * n) {
        None
    } else {
        match classes_at(
            d,
            p + 5 + 4 * n,
            classes_used(d, p + 5, n as nat),
            books,
            p + 5,
            n as nat,
            Seq::empty(),
            no_books(),
        ) {
            Some((dims, f, q)) => {
                let r = q + 6 + values_of(d, p + 5, n as nat, dims) * field(d, q + 2, 4);
                if !holds(d, q, 6) || !holds(d, r, 0) {
                    None
                } else {
                    Some((f.sound && f.widest <= range_of(field(d, q, 2)), r))
                }
            },
            None => None,
        }
    }
}

/// A floor: whether it can be followed, and where it ends.
pub open spec fn floor_at(d: Seq<u8>, p: int, books: Seq<Book>) -> Option<(bool, int)> {
    if !holds(d, p, 16) || field(d, p, 16) > 1 {
        None
    } else if field(d, p, 16) == 0 {
        curve_floor_at(d, p + 16, books)
    } else {
        line_floor_at(d, p + 16, books)
    }
}

pub open spec fn floors_at(
    d: Seq<u8>,
    p: int,
    left: int,
    books: Seq<Book>,
    floors: Seq<bool>,
) -> Option<(Seq<bool>, int)>
    decreases left,
{
    if left <= 0 {
        Some((floors, p))
    } else {
        match floor_at(d, p, books) {
            Some((sound, q)) => floors_at(d, q, left - 1, books, floors.push(sound)),
            None => None,
        }
    }
}

fn read_book_list(
    d: &Vec<u8>,
    from: u128,
    count: u32,
    books: &Vec<Book>,
    before: bool,
) -> (r: Option<(bool, u128)>)
    requires
        from <= 8 * d@.len(),
    ensures
        match r {
            Some(x) => book_list_at(d@, from as int, count as int, books@, before) == Some(
                (x.0, x.1 as int),
            ) && x.1 <= 8 * d@.len(),
            None => book_list_at(d@, from as int, count as int, books@, before) is None,
        },
{
    let mut p: u128 = from;
    let mut left: u32 = count;
    let mut sound = before;
    while left > 0
        invariant
            p <= 8 * d@.len(),
            book_list_at(d@, from as int, count as int, books@, before) == book_list_at(
                d@,
                p as int,
                left as int,
                books@,
                sound,
            ),
        decreases left,
    {
        match get(d, p, 8) {
            Some(b) => {
                sound = sound && is_readable(books, b);
            },
            None => {
                return None;
            },
        }
        p = p + 8;
        left = left - 1;
    }
    Some((sound, p))
}

fn read_curve_floor(d: &Vec<u8>, p: u128, books: &Vec<Book>) -> (r: Option<(bool, u128)>)
    requires
        p <= 8 * d@.len(),
    ensures
        match r {
            Some(x) => curve_floor_at(d@, p as int, books@) == Some((x.0, x.1 as int)) && x.1 <= 8
                * d@.len(),
            None => curve_floor_at(d@, p as int, books@) is None,
        },
{
    let total: u128 = d.len() as u128 * 8;
    if p + 58 > total {
        return None;
    }
    proof {
        lemma2_to64();
    }
    let order: u32 = get(d, p, 8)?;
    let rate: u32 = get(d, p + 8, 16)?;
    let map: u32 = get(d, p + 24, 16)?;
    let amplitude: u32 = get(d, p + 40, 6)?;
    let count: u32 = get(d, p + 54, 4)?;
    let sound = order >= 2 && rate > 0 && map > 0 && amplitude <= 30;
    let (all, end) = read_book_list(d, p + 58, count + 1, books, sound)?;
    Some((all || amplitude == 0, end))
}

fn read_classes_used(d: &Vec<u8>, p: u128, n: u32) -> (r: u32)
    requires
        n < 32,
        holds(d@, p as int, 4 * n),
    ensures
        r == classes_used(d@, p as int, n as nat),
        r <= 16,
        forall|i: int| 0 <= i < n ==> #[trigger] field(d@, p + 4 * i, 4) < r,
{
    let mut top: u32 = 0;
    let mut i: u32 = 0;
    while i < n
        invariant
            i <= n < 32,
            holds(d@, p as int, 4 * n),
            top == classes_used(d@, p as int, i as nat),
            top <= 16,
            forall|k: int| 0 <= k < i ==> #[trigger] field(d@, p + 4 * k, 4) < top,
        decreases n - i,
    {
        proof {
            lemma2_to64();
            assert(d.len() == d@.len());
        }
        if let Some(c) = get(d, p + 4 * i as u128, 4) {
            assert(c == field(d@, p + 4 * i, 4));
            if c + 1 > top {
                top = c + 1;
            }
        }
        i = i + 1;
    }
    top
}

fn read_subclasses(
    d: &Vec<u8>,
    from: u128,
    count: u32,
    books: &Vec<Book>,
    before: FloorBooks,
) -> (r: Option<(FloorBooks, u128)>)
    requires
        from <= 8 * d@.len(),
    ensures
        match r {
            Some(x) => subclasses_at(d@, from as int, count as int, books@, before) == Some(
                (x.0, x.1 as int),
            ) && x.1 <= 8 * d@.len(),
            None => subclasses_at(d@, from as int, count as int, books@, before) is None,
        },
{
    let mut p: u128 = from;
    let mut left: u32 = count;
    let mut f = before;
    while left > 0
        invariant
            p <= 8 * d@.len(),
            subclasses_at(d@, from as int, count as int, books@, before) == subclasses_at(
                d@,
                p as int,
                left as int,
                books@,
                f,
            ),
        decreases left,
    {
        let b: u32 = match get(d, p, 8) {
            Some(b) => b,
            None => {
                return None;
            },
        };
        if b > 0 {
            let i: u32 = b - 1;
            if i as usize >= books.len() {
                return None;
            }
            let top: u32 = books[i as usize].top;
            f = FloorBooks {
                sound: f.sound && is_readable(books, i),
                widest: if top > f.widest {
                    top
                } else {
                    f.widest
                },
            };
        }
        p = p + 8;
        left = left - 1;
    }
    Some((f, p))
}

fn test_class(d: &Vec<u8>, p: u128, n: u32, c: u32) -> (r: bool)
    requires
        n < 32,
        holds(d@, p as int, 4 * n),
    ensures
        r == class_occurs(d@, p as int, n as nat, c as int),
{
    let mut i: u32 = 0;
    while i < n
        invariant
            i <= n < 32,
            holds(d@, p as int, 4 * n),
            forall|k: int| 0 <= k < i ==> #[trigger] field(d@, p + 4 * k, 4) != c,
        decreases n - i,
    {
        assert(d.len() == d@.len());
        if let Some(x) = get(d, p + 4 * i as u128, 4) {
            assert(x == field(d@, p + 4 * i, 4));
            if x == c {
                return true;
            }
        }
        i = i + 1;
    }
    false
}

/// The classes of a floor, as `classes_at` says.
fn read_classes(
    d: &Vec<u8>,
    from: u128,
    count: u32,
    books: &Vec<Book>,
    parts: u128,
    n: u32,
) -> (r: Option<(Vec<u32>, FloorBooks, u128)>)
    requires
        from <= 8 * d@.len(),
        n < 32,
        holds(d@, parts as int, 4 * n),
        count <= 16,
    ensures
        match r {
            Some(x) => {
                &&& classes_at(
                    d@,
                    from as int,
                    count as int,
                    books@,
                    parts as int,
                    n as nat,
                    Seq::empty(),
                    no_books(),
                ) == Some((x.0@, x.1, x.2 as int))
                &&& x.2 <= 8 * d@.len()
                &&& x.0@.len() == count
                &&& forall|i: int| 0 <= i < count ==> #[trigger] x.0@[i] <= 8
            },
            None => classes_at(
                d@,
                from as int,
                count as int,
                books@,
                parts as int,
                n as nat,
                Seq::empty(),
                no_books(),
            ) is None,
        },
{
    let mut p: u128 = from;
    let mut left: u32 = count;
    let mut dims: Vec<u32> = Vec::new();
    let mut f = FloorBooks { sound: true, widest: 0 };
    assert(dims@ =~= Seq::empty());
    while left > 0
        invariant
            p <= 8 * d@.len(),
            left <= count <= 16,
            n < 32,
            holds(d@, parts as int, 4 * n),
            dims@.len() == count - left,
            forall|i: int| 0 <= i < dims@.len() ==> #[trigger] dims@[i] <= 8,
            classes_at(
                d@,
                from as int,
                count as int,
                books@,
                parts as int,
                n as nat,
                Seq::empty(),
                no_books(),
            ) == classes_at(
                d@,
                p as int,
                left as int,
                books@,
                parts as int,
                n as nat,
                dims@,
                f,
            ),
        decreases left,
    {
        proof {
            lemma2_to64();
        }
        if get(d, p, 5).is_none() {
            return None;
        }
        let (dim, sub) = match (get(d, p, 3), get(d, p + 3, 2)) {
            (Some(dim), Some(sub)) => (dim, sub),
            _ => {
                return None;
            },
        };
        let mut q: u128 = p + 5;
        let mut g = f;
        if sub != 0 {
            match get(d, q, 8) {
                Some(master) => {
                    if master as usize >= books.len() {
                        return None;
                    }
                    g.sound = g.sound && is_readable(books, master);
                },
                None => {
                    return None;
                },
            }
            q = q + 8;
        }
        match read_subclasses(d, q, weight_of(sub as u8) as u32, books, g) {
            Some((h, end)) => {
                if test_class(d, parts, n, count - left) {
                    f = h;
                }
                dims.push(dim + 1);
                p = end;
            },
            None => {
                return None;
            },
        }
        left = left - 1;
    }
    Some((dims, f, p))
}

fn read_values(d: &Vec<u8>, p: u128, n: u32, dims: &Vec<u32>) -> (r: u32)
    requires
        n < 32,
        holds(d@, p as int, 4 * n),
        forall|i: int| 0 <= i < n ==> #[trigger] field(d@, p + 4 * i, 4) < dims@.len(),
        forall|i: int| 0 <= i < dims@.len() ==> #[trigger] dims@[i] <= 8,
    ensures
        r == values_of(d@, p as int, n as nat, dims@),
        r <= 8 * n,
{
    let mut sum: u32 = 0;
    let mut i: u32 = 0;
    while i < n
        invariant
            i <= n < 32,
            holds(d@, p as int, 4 * n),
            forall|k: int| 0 <= k < n ==> #[trigger] field(d@, p + 4 * k, 4) < dims@.len(),
            forall|k: int| 0 <= k < dims@.len() ==> #[trigger] dims@[k] <= 8,
            sum == values_of(d@, p as int, i as nat, dims@),
            sum <= 8 * i,
        decreases n - i,
    {
        assert(d.len() == d@.len());
        if let Some(c) = get(d, p + 4 * i as u128, 4) {
            assert(c == field(d@, p + 4 * i, 4));
            sum = sum + dims[c as usize];
        }
        i = i + 1;
    }
    sum
}

fn read_line_floor(d: &Vec<u8>, p: u128, books: &Vec<Book>) -> (r: Option<(bool, u128)>)
    requires
        p <= 8 * d@.len(),
    ensures
        match r {
            Some(x) => line_floor_at(d@, p as int, books@) == Some((x.0, x.1 as int)) && x.1 <= 8
                * d@.len(),
            None => line_floor_at(d@, p as int, books@) is None,
        },
{
    proof {
        lemma2_to64();
        lemma_field_bound(d@, p as int, 5);
    }
    let total: u128 = d.len() as u128 * 8;
    let n: u32 = get(d, p, 5)?;
    let q: u128 = p + 5 + 4 * n as u128;
    if q > total {
        return None;
    }
    let classes: u32 = read_classes_used(d, p + 5, n);
    let (dims, f, end) = read_classes(d, q, classes, books, p + 5, n)?;
    let values: u32 = read_values(d, p + 5, n, &dims);
    if end + 6 > total {
        return None;
    }
    let multiplier: u32 = get(d, end, 2)?;
    let bits: u32 = get(d, end + 2, 4)?;
    proof {
        assert(0 <= values * bits <= 248 * 16) by (nonlinear_arith)
            requires
                0 <= values <= 248,
                0 <= bits <= 16,
        ;
    }
    let stop: u128 = end + 6 + (values * bits) as u128;
    let range: u32 = if multiplier == 0 {
        256
    } else if multiplier == 1 {
        128
    } else if multiplier == 2 {
        86
    } else {
        64
    };
    if stop > total {
        None
    } else {
        Some((f.sound && f.widest <= range, stop))
    }
}

fn read_floor(d: &Vec<u8>, p: u128, books: &Vec<Book>) -> (r: Option<(bool, u128)>)
    requires
        p <= 8 * d@.len(),
    ensures
        match r {
            Some(x) => floor_at(d@, p as int, books@) == Some((x.0, x.1 as int)) && x.1 <= 8
                * d@.len(),
            None => floor_at(d@, p as int, books@) is None,
        },
{
    let kind: u32 = get(d, p, 16)?;
    if kind > 1 {
        None
    } else if kind == 0 {
        read_curve_floor(d, p + 16, books)
    } else {
        read_line_floor(d, p + 16, books)
    }
}

pub(crate) fn read_floors(d: &Vec<u8>, from: u128, count: u32, books: &Vec<Book>) -> (r: Option<
    (Vec<bool>, u128),
>)
    requires
        from <= 8 * d@.len(),
    ensures
        match r {
            Some(x) => floors_at(d@, from as int, count as int, books@, Seq::empty()) == Some(
                (x.0@, x.1 as int),
            ) && x.1 <= 8 * d@.len() && x.0@.len() == count,
            None => floors_at(d@, from as int, count as int, books@, Seq::empty()) is None,
        },
{
    let mut p: u128 = from;
    let mut left: u32 = count;
    let mut floors: Vec<bool> = Vec::new();
    assert(floors@ =~= Seq::empty());
    while left > 0
        invariant
            p <= 8 * d@.len(),
            left <= count,
            floors@.len() == count - left,
            floors_at(d@, from as int, count as int, books@, Seq::empty()) == floors_at(
                d@,
                p as int,
                left as int,
                books@,
                floors@,
            ),
        decreases left,
    {
        match read_floor(d, p, books) {
            Some((sound, q)) => {
                floors.push(sound);
                p = q;
            },
            None => {
                return None;
            },
        }
        left = left - 1;
    }
    Some((floors, p))
}

} // verus!
