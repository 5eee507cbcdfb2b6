//! Lists of names for the user to pick from, in alphabetical order.
use crate::template::is_template_name;
use crate::text::{begins_with, chars_of, ends_with, starts};
use vstd::prelude::*;
use vstd::seq_lib::group_to_multiset_ensures;

verus! {

/// `a` and `b` agree up to `k`, where `a` ends or has the smaller character.
pub open spec fn parts_at(a: Seq<char>, b: Seq<char>, k: int) -> bool {
    &&& 0 <= k <= a.len()
    &&& k <= b.len()
    &&& forall|i: int| 0 <= i < k ==> #[trigger] a[i] == b[i]
    &&& k == a.len() || (k < b.len() && (a[k] as u32) < b[k] as u32)
}

/// `a` stands in front of `b` in alphabetical order, or is the same.
pub open spec fn not_after(a: Seq<char>, b: Seq<char>) -> bool {
    exists|k: int| parts_at(a, b, k)
}

/// The texts are in alphabetical order.
pub open spec fn in_order(s: Seq<Seq<char>>) -> bool {
    forall|i: int, j: int| 0 <= i < j < s.len() ==> not_after(#[trigger] s[i], #[trigger] s[j])
}

/// The contents of names.
pub open spec fn names_of(s: Seq<String>) -> Seq<Seq<char>> {
    s.map_values(|x: String| x@)
}

/// `r` holds the texts of `s` that satisfy `p`, each as often as there, in
/// alphabetical order.
pub open spec fn lists(r: Seq<Seq<char>>, s: Seq<Seq<char>>, p: spec_fn(Seq<char>) -> bool) -> bool {
    &&& in_order(r)
    &&& r.to_multiset() == s.filter(p).to_multiset()
}

/// The order of texts is transitive.
proof fn lemma_order_chains(a: Seq<char>, b: Seq<char>, c: Seq<char>)
    requires
        not_after(a, b),
        not_after(b, c),
    ensures
        not_after(a, c),
{
    let k = choose|k: int| parts_at(a, b, k);
    let l = choose|k: int| parts_at(b, c, k);
    assert(parts_at(a, c, if k <= l { k } else { l }));
}

/// Two texts that each stand in front of the other are the same, so that a
/// list has one order only.
pub proof fn order_is_strict(a: Seq<char>, b: Seq<char>)
    requires
        not_after(a, b),
        not_after(b, a),
    ensures
        a == b,
{
    let k = choose|k: int| parts_at(a, b, k);
    let l = choose|k: int| parts_at(b, a, k);
    if k < a.len() && l < b.len() {
        assert(k < l ==> a[k] == b[k]);
        assert(l < k ==> a[l] == b[l]);
    }
    assert(a =~= b);
}

/// Whether a character is the smaller one of two.
fn is_smaller(c: char, d: char) -> (r: bool)
    ensures
        r == ((c as u32) < d as u32),
        !r && c != d ==> (d as u32) < c as u32,
{
    (c as u32) < (d as u32)
}

/// Whether `a` stands in front of `b` in alphabetical order, or is the same;
/// where not, `b` stands in front of `a`.
fn is_not_after(a: &str, b: &str) -> (r: bool)
    ensures
        r == not_after(a@, b@),
        !r ==> not_after(b@, a@),
{
    let x = chars_of(a);
    let y = chars_of(b);
    let mut k: usize = 0;
    while k < x.len() && k < y.len() && x[k] == y[k]
        invariant
            0 <= k <= x@.len(),
            k <= y@.len(),
            x@ == a@,
            y@ == b@,
            forall|i: int| 0 <= i < k ==> #[trigger] a@[i] == b@[i],
        decreases x@.len() - k,
    {
        k += 1;
    }
    if k == x.len() {
        assert(parts_at(a@, b@, k as int));
        return true;
    }
    if k == y.len() {
        proof {
            assert(parts_at(b@, a@, k as int));
            if not_after(a@, b@) {
                order_is_strict(a@, b@);
            }
        }
        return false;
    }
    let r = is_smaller(x[k], y[k]);
    proof {
        if r {
            assert(parts_at(a@, b@, k as int));
        } else {
            assert(parts_at(b@, a@, k as int));
            if not_after(a@, b@) {
                order_is_strict(a@, b@);
            }
        }
    }
    r
}

/// Put a name into a list at its place.
fn put_in_order(list: &mut Vec<String>, name: String)
    requires
        in_order(names_of(old(list)@)),
    ensures
        in_order(names_of(final(list)@)),
        names_of(final(list)@).to_multiset() == names_of(old(list)@).to_multiset().insert(name@),
{
    let ghost before = names_of(list@);
    let ghost n = name@;
    let mut p: usize = list.len();
    while p > 0 && !is_not_after(list[p - 1].as_str(), name.as_str())
        invariant
            0 <= p <= list@.len(),
            name@ == n,
            before == names_of(list@),
            forall|k: int| p <= k < before.len() ==> not_after(n, #[trigger] before[k]),
        decreases p,
    {
        assert(before[p - 1] == list@[p - 1]@);
        p -= 1;
    }
    proof {
        if p > 0 {
            assert(before[p - 1] == list@[p - 1]@);
        }
    }
    list.insert(p, name);
    proof {
        broadcast use group_to_multiset_ensures;

        let after = names_of(list@);
        assert(after =~= before.insert(p as int, n));
        assert(after.remove(p as int) =~= before);
        assert(after.to_multiset() =~= before.to_multiset().insert(n));
        assert forall|i: int, j: int| 0 <= i < j < after.len() implies not_after(
            #[trigger] after[i],
            #[trigger] after[j],
        ) by {
            if i < p && j >= p {
                if i < p - 1 {
                    lemma_order_chains(before[i], before[p - 1], n);
                }
                assert(not_after(before[i], n));
            }
        }
    }
}

/// A folder that is listed: one whose name does not begin with a full stop.
pub open spec fn is_shown(name: Seq<char>) -> bool {
    !begins_with(name, "."@)
}

/// A file that is listed as a template.
pub open spec fn is_template(name: Seq<char>) -> bool {
    ends_with(name, ".txt"@) && !begins_with(name, "."@)
}

/// The sessions among the folders that were found.
pub fn list_sessions(found: Vec<String>) -> (r: Vec<String>)
    ensures
        lists(names_of(r@), names_of(found@), |n: Seq<char>| is_shown(n)),
{
    let ghost p = |n: Seq<char>| is_shown(n);
    let ghost all = names_of(found@);
    let mut out: Vec<String> = Vec::new();
    let mut i: usize = 0;
    proof {
        lemma_nothing_listed(out@, all, p);
    }
    while i < found.len()
        invariant
            0 <= i <= found@.len(),
            all == names_of(found@),
            p == (|n: Seq<char>| is_shown(n)),
            lists(names_of(out@), all.take(i as int), p),
        decreases found@.len() - i,
    {
        let name = found[i].clone();
        assert(all[i as int] == name@);
        proof {
            lemma_one_more(all, p, i as int);
        }
        if !starts(name.as_str(), ".") {
            put_in_order(&mut out, name);
        }
        i += 1;
    }
    assert(all.take(i as int) =~= all);
    out
}

/// The templates among the files that were found.
pub fn list_templates(found: Vec<String>) -> (r: Vec<String>)
    ensures
        lists(names_of(r@), names_of(found@), |n: Seq<char>| is_template(n)),
{
    let ghost p = |n: Seq<char>| is_template(n);
    let ghost all = names_of(found@);
    let mut out: Vec<String> = Vec::new();
    let mut i: usize = 0;
    proof {
        lemma_nothing_listed(out@, all, p);
    }
    while i < found.len()
        invariant
            0 <= i <= found@.len(),
            all == names_of(found@),
            p == (|n: Seq<char>| is_template(n)),
            lists(names_of(out@), all.take(i as int), p),
        decreases found@.len() - i,
    {
        let name = found[i].clone();
        assert(all[i as int] == name@);
        proof {
            lemma_one_more(all, p, i as int);
        }
        if is_template_name(name.as_str()) {
            put_in_order(&mut out, name);
        }
        i += 1;
    }
    assert(all.take(i as int) =~= all);
    out
}

/// Of no texts, none is listed.
proof fn lemma_nothing_listed(
    out: Seq<String>,
    s: Seq<Seq<char>>,
    p: spec_fn(Seq<char>) -> bool,
)
    requires
        out.len() == 0,
    ensures
        lists(names_of(out), s.take(0), p),
{
    reveal(Seq::filter);
    assert(s.take(0).filter(p) =~= names_of(out));
}

/// What satisfies `p` among one text more.
proof fn lemma_one_more(s: Seq<Seq<char>>, p: spec_fn(Seq<char>) -> bool, i: int)
    requires
        0 <= i < s.len(),
    ensures
        s.take(i + 1).filter(p).to_multiset() == if p(s[i]) {
            s.take(i).filter(p).to_multiset().insert(s[i])
        } else {
            s.take(i).filter(p).to_multiset()
        },
{
    broadcast use group_to_multiset_ensures;

    reveal(Seq::filter);
    assert(s.take(i + 1).drop_last() =~= s.take(i));
    assert(s.take(i + 1).last() == s[i]);
}

// Laws.

/// A list shows the names that are found and pass, and no other.
pub proof fn lists_show_what_passes(
    r: Seq<Seq<char>>,
    s: Seq<Seq<char>>,
    p: spec_fn(Seq<char>) -> bool,
    n: Seq<char>,
)
    requires
        lists(r, s, p),
    ensures
        r.contains(n) <==> s.contains(n) && p(n),
        in_order(r),
{
    broadcast use group_to_multiset_ensures;

    let f = s.filter(p);
    assert(r.contains(n) <==> r.to_multiset().count(n) > 0);
    assert(f.contains(n) <==> f.to_multiset().count(n) > 0);
    lemma_kept_names(s, p, n);
}

proof fn lemma_kept_names(s: Seq<Seq<char>>, p: spec_fn(Seq<char>) -> bool, n: Seq<char>)
    ensures
        s.filter(p).contains(n) <==> s.contains(n) && p(n),
    decreases s.len(),
{
    reveal(Seq::filter);
    if s.len() > 0 {
        let t = s.drop_last();
        let (f, g) = (s.filter(p), t.filter(p));
        lemma_kept_names(t, p, n);
        if f.contains(n) {
            let k = choose|k: int| 0 <= k < f.len() && f[k] == n;
            if k < g.len() {
                assert(g[k] == n);
                assert(t.contains(n));
                let j = choose|j: int| 0 <= j < t.len() && t[j] == n;
                assert(s[j] == n);
            } else {
                assert(s[s.len() - 1] == n);
            }
        }
        if s.contains(n) && p(n) {
            let k = choose|k: int| 0 <= k < s.len() && s[k] == n;
            if k < t.len() {
                assert(t[k] == n);
                let j = choose|j: int| 0 <= j < g.len() && g[j] == n;
                assert(f[j] == n);
            } else {
                assert(f[f.len() - 1] == n);
            }
        }
    }
}

/// A name that begins with a full stop is not shown. A file is shown as a
/// template only with the ending of one.
pub proof fn hidden_names_are_not_shown(name: Seq<char>)
    ensures
        is_shown(name) <==> name.len() == 0 || name[0] != '.',
        is_template(name) <==> is_shown(name) && ends_with(name, ".txt"@),
{
    reveal_strlit(".");
    if name.len() > 0 {
        assert(name.subrange(0, 1)[0] == name[0]);
        if name[0] == '.' {
            assert(name.subrange(0, 1) =~= "."@);
        }
    }
}

/// The order is that of the first character in which two names differ, by its
/// number. A name stands in front of every longer one that begins with it.
pub proof fn names_are_ordered_by_their_first_difference(a: Seq<char>, b: Seq<char>, k: int)
    requires
        0 <= k <= a.len(),
        k <= b.len(),
        forall|i: int| 0 <= i < k ==> #[trigger] a[i] == b[i],
    ensures
        k == a.len() ==> not_after(a, b),
        k < a.len() && k < b.len() && (a[k] as u32) < (b[k] as u32) ==> not_after(a, b)
            && !not_after(b, a),
{
    if k == a.len() {
        assert(parts_at(a, b, k));
    }
    if k < a.len() && k < b.len() && (a[k] as u32) < (b[k] as u32) {
        assert(parts_at(a, b, k));
        if not_after(b, a) {
            order_is_strict(a, b);
        }
    }
}

} // verus!
