//! Searching and summing over sequences.
use vstd::prelude::*;

verus! {

/// `i` is the first index of `s` at which `f` finds something.
pub open spec fn hits_first<T, R>(s: Seq<T>, f: spec_fn(T) -> Option<R>, i: int) -> bool {
    &&& 0 <= i < s.len()
    &&& f(s[i]) is Some
    &&& forall|j: int| 0 <= j < i ==> f(#[trigger] s[j]) is None
}

/// The first index of `s` at which `f` finds something, with what it finds.
pub open spec fn first_hit<T, R>(s: Seq<T>, f: spec_fn(T) -> Option<R>) -> Option<(int, R)> {
    if exists|i: int| hits_first(s, f, i) {
        let i = choose|i: int| hits_first(s, f, i);
        Some((i, f(s[i])->0))
    } else {
        None
    }
}

/// `i` is the first index of `s` whose element satisfies `p`.
pub open spec fn is_first<T>(s: Seq<T>, p: spec_fn(T) -> bool, i: int) -> bool {
    &&& 0 <= i < s.len()
    &&& p(s[i])
    &&& forall|j: int| 0 <= j < i ==> !p(#[trigger] s[j])
}

/// The first index of `s` whose element satisfies `p`.
pub open spec fn first_index<T>(s: Seq<T>, p: spec_fn(T) -> bool) -> Option<int> {
    if exists|i: int| is_first(s, p, i) {
        Some(choose|i: int| is_first(s, p, i))
    } else {
        None
    }
}

/// The sum of `f` over the elements of `s`.
pub open spec fn total<T>(s: Seq<T>, f: spec_fn(T) -> nat) -> nat
    decreases s.len(),
{
    if s.len() == 0 {
        0
    } else {
        total(s.drop_last(), f) + f(s.last())
    }
}

/// The concatenation of what `f` gives for the elements of `s`, in order.
pub open spec fn flat<T, R>(s: Seq<T>, f: spec_fn(T) -> Seq<R>) -> Seq<R>
    decreases s.len(),
{
    if s.len() == 0 {
        Seq::empty()
    } else {
        flat(s.drop_last(), f) + f(s.last())
    }
}

pub proof fn lemma_first_hit<T, R>(s: Seq<T>, f: spec_fn(T) -> Option<R>, i: int)
    requires
        hits_first(s, f, i),
    ensures
        first_hit(s, f) == Some((i, f(s[i])->0)),
{
    let k = choose|k: int| hits_first(s, f, k);
    assert(hits_first(s, f, k));
    if k < i {
        assert(f(s[k]) is None);
    }
    if i < k {
        assert(f(s[i]) is None);
    }
}

/// Some index hits, then so does a first one.
proof fn lemma_hit_exists<T, R>(s: Seq<T>, f: spec_fn(T) -> Option<R>, i: int)
    requires
        0 <= i < s.len(),
        f(s[i]) is Some,
    ensures
        exists|k: int| hits_first(s, f, k),
    decreases i,
{
    if exists|j: int| 0 <= j < i && f(#[trigger] s[j]) is Some {
        let j = choose|j: int| 0 <= j < i && f(#[trigger] s[j]) is Some;
        lemma_hit_exists(s, f, j);
    } else {
        assert(hits_first(s, f, i));
    }
}

pub proof fn lemma_first_hit_found<T, R>(s: Seq<T>, f: spec_fn(T) -> Option<R>)
    ensures
        first_hit(s, f) matches Some((i, r)) ==> hits_first(s, f, i) && f(s[i]) == Some(r),
        first_hit(s, f) is None ==> forall|j: int| 0 <= j < s.len() ==> f(#[trigger] s[j]) is None,
{
    if first_hit(s, f) is None {
        assert forall|j: int| 0 <= j < s.len() implies f(#[trigger] s[j]) is None by {
            if f(s[j]) is Some {
                lemma_hit_exists(s, f, j);
            }
        }
    }
}

pub proof fn lemma_no_hit<T, R>(s: Seq<T>, f: spec_fn(T) -> Option<R>)
    requires
        forall|j: int| 0 <= j < s.len() ==> f(#[trigger] s[j]) is None,
    ensures
        first_hit(s, f) is None,
{
}

pub proof fn lemma_first_index<T>(s: Seq<T>, p: spec_fn(T) -> bool, i: int)
    requires
        is_first(s, p, i),
    ensures
        first_index(s, p) == Some(i),
{
    let k = choose|k: int| is_first(s, p, k);
    assert(is_first(s, p, k));
    if k < i {
        assert(!p(s[k]));
    }
    if i < k {
        assert(!p(s[i]));
    }
}

proof fn lemma_first_exists<T>(s: Seq<T>, p: spec_fn(T) -> bool, i: int)
    requires
        0 <= i < s.len(),
        p(s[i]),
    ensures
        exists|k: int| is_first(s, p, k),
    decreases i,
{
    if exists|j: int| 0 <= j < i && p(#[trigger] s[j]) {
        let j = choose|j: int| 0 <= j < i && p(#[trigger] s[j]);
        lemma_first_exists(s, p, j);
    } else {
        assert(is_first(s, p, i));
    }
}

pub proof fn lemma_first_index_found<T>(s: Seq<T>, p: spec_fn(T) -> bool)
    ensures
        first_index(s, p) matches Some(i) ==> is_first(s, p, i),
        first_index(s, p) is None ==> forall|j: int| 0 <= j < s.len() ==> !p(#[trigger] s[j]),
{
    if first_index(s, p) is None {
        assert forall|j: int| 0 <= j < s.len() implies !p(#[trigger] s[j]) by {
            if p(s[j]) {
                lemma_first_exists(s, p, j);
            }
        }
    }
}

/// Taking one more element adds its share to the sum.
pub proof fn lemma_total_take<T>(s: Seq<T>, f: spec_fn(T) -> nat, i: int)
    requires
        0 <= i < s.len(),
    ensures
        total(s.take(i + 1), f) == total(s.take(i), f) + f(s[i]),
{
    assert(s.take(i + 1).drop_last() =~= s.take(i));
}

/// The sum over a prefix is at most the sum over the whole.
pub proof fn lemma_total_prefix<T>(s: Seq<T>, f: spec_fn(T) -> nat, i: int)
    requires
        0 <= i <= s.len(),
    ensures
        total(s.take(i), f) <= total(s, f),
    decreases s.len() - i,
{
    if i == s.len() {
        assert(s.take(i) =~= s);
    } else {
        lemma_total_take(s, f, i);
        lemma_total_prefix(s, f, i + 1);
    }
}

pub proof fn lemma_total_append<T>(s: Seq<T>, t: Seq<T>, f: spec_fn(T) -> nat)
    ensures
        total(s + t, f) == total(s, f) + total(t, f),
    decreases t.len(),
{
    if t.len() == 0 {
        assert(s + t =~= s);
    } else {
        assert((s + t).drop_last() =~= s + t.drop_last());
        lemma_total_append(s, t.drop_last(), f);
    }
}

pub proof fn lemma_total_insert<T>(s: Seq<T>, f: spec_fn(T) -> nat, i: int, x: T)
    requires
        0 <= i <= s.len(),
    ensures
        total(s.insert(i, x), f) == total(s, f) + f(x),
{
    let a = s.take(i);
    let b = s.skip(i);
    assert(s =~= a + b);
    assert(s.insert(i, x) =~= a.push(x) + b);
    lemma_total_append(a, b, f);
    lemma_total_append(a.push(x), b, f);
    assert(a.push(x).drop_last() =~= a);
}

pub proof fn lemma_total_update<T>(s: Seq<T>, f: spec_fn(T) -> nat, i: int, x: T)
    requires
        0 <= i < s.len(),
    ensures
        total(s.update(i, x), f) == total(s, f) - f(s[i]) + f(x),
{
    let rest = s.remove(i);
    assert(s =~= rest.insert(i, s[i]));
    assert(s.update(i, x) =~= rest.insert(i, x));
    lemma_total_insert(rest, f, i, s[i]);
    lemma_total_insert(rest, f, i, x);
}

pub proof fn lemma_flat_take<T, R>(s: Seq<T>, f: spec_fn(T) -> Seq<R>, i: int)
    requires
        0 <= i < s.len(),
    ensures
        flat(s.take(i + 1), f) == flat(s.take(i), f) + f(s[i]),
{
    assert(s.take(i + 1).drop_last() =~= s.take(i));
}

/// Where nothing hit before, a replacement that hits is the first.
pub proof fn lemma_hit_update_new<T, R>(s: Seq<T>, f: spec_fn(T) -> Option<R>, i: int, x: T)
    requires
        first_hit(s, f) is None,
        0 <= i < s.len(),
        f(x) is Some,
    ensures
        first_hit(s.update(i, x), f) == Some((i, f(x)->0)),
{
    lemma_first_hit_found(s, f);
    assert(hits_first(s.update(i, x), f, i));
    lemma_first_hit(s.update(i, x), f, i);
}

/// A replacement in which the same is found leaves the first hit in place.
pub proof fn lemma_hit_update_same<T, R>(s: Seq<T>, f: spec_fn(T) -> Option<R>, i: int, x: T)
    requires
        0 <= i < s.len(),
        f(x) == f(s[i]),
    ensures
        first_hit(s.update(i, x), f) == first_hit(s, f),
{
    let t = s.update(i, x);
    lemma_first_hit_found(s, f);
    match first_hit(s, f) {
        Some((k, r)) => {
            assert forall|j: int| 0 <= j < k implies f(#[trigger] t[j]) is None by {
                assert(f(s[j]) is None);
            }
            assert(hits_first(t, f, k));
            lemma_first_hit(t, f, k);
        },
        None => {
            assert forall|j: int| 0 <= j < t.len() implies f(#[trigger] t[j]) is None by {
                assert(f(s[j]) is None);
            }
            lemma_no_hit(t, f);
        },
    }
}

/// Where nothing matched before, what is inserted and matches is the first.
pub proof fn lemma_index_insert_new<T>(s: Seq<T>, p: spec_fn(T) -> bool, i: int, x: T)
    requires
        first_index(s, p) is None,
        0 <= i <= s.len(),
        p(x),
    ensures
        first_index(s.insert(i, x), p) == Some(i),
{
    lemma_first_index_found(s, p);
    let t = s.insert(i, x);
    assert forall|j: int| 0 <= j < i implies !p(#[trigger] t[j]) by {
        assert(t[j] == s[j]);
    }
    assert(is_first(t, p, i));
    lemma_first_index(t, p, i);
}

/// A replacement that matches as before leaves the first match in place.
pub proof fn lemma_index_update_same<T>(s: Seq<T>, p: spec_fn(T) -> bool, i: int, x: T)
    requires
        0 <= i < s.len(),
        p(x) == p(s[i]),
    ensures
        first_index(s.update(i, x), p) == first_index(s, p),
{
    let t = s.update(i, x);
    lemma_first_index_found(s, p);
    match first_index(s, p) {
        Some(k) => {
            assert forall|j: int| 0 <= j < k implies !p(#[trigger] t[j]) by {
                assert(!p(s[j]));
            }
            assert(is_first(t, p, k));
            lemma_first_index(t, p, k);
        },
        None => {
            lemma_first_index_found(t, p);
            if let Some(k) = first_index(t, p) {
                assert(!p(s[k]));
            }
        },
    }
}

/// What stands in a concatenation stands in one of its parts.
pub proof fn lemma_flat_contains<T, R>(s: Seq<T>, f: spec_fn(T) -> Seq<R>, x: R)
    ensures
        flat(s, f).contains(x) <==> exists|i: int|
            0 <= i < s.len() && (#[trigger] f(s[i])).contains(x),
    decreases s.len(),
{
    if s.len() > 0 {
        let t = s.drop_last();
        lemma_flat_contains(t, f, x);
        let a = flat(t, f);
        let b = f(s.last());
        if flat(s, f).contains(x) {
            let k = choose|k: int| 0 <= k < (a + b).len() && (a + b)[k] == x;
            if k < a.len() {
                assert(a[k] == x);
                let i = choose|i: int| 0 <= i < t.len() && (#[trigger] f(t[i])).contains(x);
                assert(f(s[i]).contains(x));
            } else {
                assert(b[k - a.len()] == x);
                assert(f(s[s.len() - 1]).contains(x));
            }
        }
        if exists|i: int| 0 <= i < s.len() && (#[trigger] f(s[i])).contains(x) {
            let i = choose|i: int| 0 <= i < s.len() && (#[trigger] f(s[i])).contains(x);
            if i < t.len() {
                assert(f(t[i]).contains(x));
                let k = choose|k: int| 0 <= k < a.len() && a[k] == x;
                assert((a + b)[k] == x);
            } else {
                let k = choose|k: int| 0 <= k < b.len() && b[k] == x;
                assert((a + b)[a.len() + k] == x);
            }
        }
    }
}

/// What `f` finds in the elements of `s`, in order.
pub open spec fn picked<T, R>(s: Seq<T>, f: spec_fn(T) -> Option<R>) -> Seq<R>
    decreases s.len(),
{
    if s.len() == 0 {
        Seq::empty()
    } else {
        match f(s.last()) {
            Some(r) => picked(s.drop_last(), f).push(r),
            None => picked(s.drop_last(), f),
        }
    }
}

pub proof fn lemma_picked_take<T, R>(s: Seq<T>, f: spec_fn(T) -> Option<R>, i: int)
    requires
        0 <= i < s.len(),
    ensures
        picked(s.take(i + 1), f) == match f(s[i]) {
            Some(r) => picked(s.take(i), f).push(r),
            None => picked(s.take(i), f),
        },
{
    assert(s.take(i + 1).drop_last() =~= s.take(i));
}

pub proof fn lemma_picked_append<T, R>(s: Seq<T>, t: Seq<T>, f: spec_fn(T) -> Option<R>)
    ensures
        picked(s + t, f) == picked(s, f) + picked(t, f),
    decreases t.len(),
{
    if t.len() == 0 {
        assert(s + t =~= s);
        assert(picked(s + t, f) =~= picked(s, f) + picked(t, f));
    } else {
        assert((s + t).drop_last() =~= s + t.drop_last());
        lemma_picked_append(s, t.drop_last(), f);
        assert(picked(s + t, f) =~= picked(s, f) + picked(t, f));
    }
}

/// Where every element gives something, so does each place.
pub proof fn lemma_picked_all<T, R>(s: Seq<T>, f: spec_fn(T) -> Option<R>)
    requires
        forall|i: int| 0 <= i < s.len() ==> f(#[trigger] s[i]) is Some,
    ensures
        picked(s, f) == s.map_values(|x: T| f(x)->0),
    decreases s.len(),
{
    if s.len() > 0 {
        assert forall|i: int| 0 <= i < s.drop_last().len() implies f(
            #[trigger] s.drop_last()[i],
        ) is Some by {
            assert(f(s[i]) is Some);
        }
        lemma_picked_all(s.drop_last(), f);
        assert(f(s[s.len() - 1]) is Some);
    }
    assert(picked(s, f) =~= s.map_values(|x: T| f(x)->0));
}

/// Picking from a concatenation is concatenating what is picked of its parts.
pub proof fn lemma_picked_flat<T, U, R>(
    s: Seq<T>,
    f: spec_fn(T) -> Seq<U>,
    g: spec_fn(U) -> Option<R>,
    h: spec_fn(T) -> Seq<R>,
)
    requires
        forall|i: int| 0 <= i < s.len() ==> picked(f(#[trigger] s[i]), g) == h(s[i]),
    ensures
        picked(flat(s, f), g) == flat(s, h),
    decreases s.len(),
{
    if s.len() > 0 {
        assert forall|i: int| 0 <= i < s.drop_last().len() implies picked(
            f(#[trigger] s.drop_last()[i]),
            g,
        ) == h(s.drop_last()[i]) by {
            assert(picked(f(s[i]), g) == h(s[i]));
        }
        lemma_picked_flat(s.drop_last(), f, g, h);
        lemma_picked_append(flat(s.drop_last(), f), f(s.last()), g);
        assert(picked(f(s[s.len() - 1]), g) == h(s[s.len() - 1]));
    }
}

/// What is picked of a single element.
pub proof fn lemma_picked_one<T, R>(x: T, f: spec_fn(T) -> Option<R>)
    ensures
        picked(seq![x], f) == match f(x) {
            Some(r) => seq![r],
            None => Seq::empty(),
        },
{
    assert(seq![x].drop_last() =~= Seq::empty());
    assert(picked(seq![x].drop_last(), f) =~= Seq::empty());
    assert(picked(seq![x], f) =~= match f(x) {
        Some(r) => seq![r],
        None => Seq::empty(),
    });
}

/// Where all elements that match are the same and there is one, the first and
/// the last match are that one.
pub proof fn lemma_only_match<T>(s: Seq<T>, p: spec_fn(T) -> bool, x: T)
    requires
        s.contains(x),
        p(x),
        forall|i: int| 0 <= i < s.len() && p(#[trigger] s[i]) ==> s[i] == x,
    ensures
        first_index(s, p) matches Some(i) && 0 <= i < s.len() && s[i] == x,
        last_index(s, p) matches Some(i) && 0 <= i < s.len() && s[i] == x,
{
    let k = choose|k: int| 0 <= k < s.len() && s[k] == x;
    lemma_first_index_found(s, p);
    lemma_last_exists(s, p, k);
    let l = choose|l: int| is_last(s, p, l);
    lemma_last_index(s, p, l);
}

proof fn lemma_last_exists<T>(s: Seq<T>, p: spec_fn(T) -> bool, i: int)
    requires
        0 <= i < s.len(),
        p(s[i]),
    ensures
        exists|k: int| is_last(s, p, k),
    decreases s.len() - i,
{
    if exists|j: int| i < j < s.len() && p(#[trigger] s[j]) {
        let j = choose|j: int| i < j < s.len() && p(#[trigger] s[j]);
        lemma_last_exists(s, p, j);
    } else {
        assert(is_last(s, p, i));
    }
}

/// `i` is the last index of `s` whose element satisfies `p`.
pub open spec fn is_last<T>(s: Seq<T>, p: spec_fn(T) -> bool, i: int) -> bool {
    &&& 0 <= i < s.len()
    &&& p(s[i])
    &&& forall|j: int| i < j < s.len() ==> !p(#[trigger] s[j])
}

/// The last index of `s` whose element satisfies `p`.
pub open spec fn last_index<T>(s: Seq<T>, p: spec_fn(T) -> bool) -> Option<int> {
    if exists|i: int| is_last(s, p, i) {
        Some(choose|i: int| is_last(s, p, i))
    } else {
        None
    }
}

pub proof fn lemma_last_index<T>(s: Seq<T>, p: spec_fn(T) -> bool, i: int)
    requires
        is_last(s, p, i),
    ensures
        last_index(s, p) == Some(i),
{
    let k = choose|k: int| is_last(s, p, k);
    assert(is_last(s, p, k));
    if k < i {
        assert(!p(s[i]));
    }
    if i < k {
        assert(!p(s[k]));
    }
}

} // verus!
