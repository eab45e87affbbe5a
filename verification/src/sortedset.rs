//! Sets of text kept as strictly sorted lists, which is what iterating a
//! `BTreeSet` of strings gives.

use vstd::prelude::*;
use crate::strmap::strictly_sorted;
use crate::text;

verus! {

/// Whether `x` is one of the elements of `s`.
pub open spec fn member(s: Seq<Seq<char>>, x: Seq<char>) -> bool {
    exists|i: int| 0 <= i < s.len() && s[i] == x
}

/// `x` added to the strictly sorted list `v`, unless it is already there.
pub fn insert_unique(v: &mut Vec<Vec<char>>, x: Vec<char>)
    requires
        strictly_sorted(text::views(old(v)@)),
    ensures
        strictly_sorted(text::views(final(v)@)),
        forall|q: Seq<char>| member(text::views(final(v)@), q) == (member(text::views(old(v)@), q) || q == x@),
{
    let ghost ks = text::views(v@);
    let mut i: usize = 0;
    while i < v.len()
        invariant
            i <= v.len(),
            text::views(v@) == ks,
            forall|j: int| 0 <= j < i ==> text::lex_lt(#[trigger] ks[j], x@),
        ensures
            i <= v.len(),
            text::views(v@) == ks,
            forall|j: int| 0 <= j < i ==> text::lex_lt(#[trigger] ks[j], x@),
            i < v.len() ==> !text::lex_lt(ks[i as int], x@),
        decreases v.len() - i,
    {
        assert(ks[i as int] == v@[i as int]@);
        if !text::lex_less(&v[i], &x) {
            break;
        }
        i = i + 1;
    }
    if i < v.len() {
        assert(ks[i as int] == v@[i as int]@);
        if text::chars_eq(&v[i], &x) {
            assert forall|q: Seq<char>| member(text::views(v@), q) == (member(ks, q) || q == x@) by {
                if q == x@ {
                    assert(ks[i as int] == q);
                }
            }
            return;
        }
        proof {
            text::lemma_lex_total(ks[i as int], x@);
        }
    }
    let ghost xv = x@;
    v.insert(i, x);
    proof {
        let nv = text::views(v@);
        assert(nv =~= ks.insert(i as int, xv));
        assert forall|j: int| i <= j < ks.len() implies text::lex_lt(xv, ks[j]) by {
            if j > i {
                assert(text::lex_lt(ks[i as int], ks[j]));
                text::lemma_lex_transitive(xv, ks[i as int], ks[j]);
            }
        }
        assert forall|a: int, b: int| 0 <= a < b < nv.len() implies text::lex_lt(nv[a], nv[b]) by {
            if a < i && b < i {
            } else if a < i && b == i {
            } else if a < i && b > i {
                assert(text::lex_lt(ks[a], ks[b - 1]));
            } else if a == i {
            } else {
                assert(text::lex_lt(ks[a - 1], ks[b - 1]));
            }
        }
        assert forall|q: Seq<char>| member(nv, q) == (member(ks, q) || q == xv) by {
            if member(nv, q) {
                let j = choose|j: int| 0 <= j < nv.len() && nv[j] == q;
                if j < i {
                    assert(ks[j] == q);
                } else if j > i {
                    assert(ks[j - 1] == q);
                }
            }
            if member(ks, q) {
                let j = choose|j: int| 0 <= j < ks.len() && ks[j] == q;
                if j < i {
                    assert(nv[j] == q);
                } else {
                    assert(nv[j + 1] == q);
                }
            }
            if q == xv {
                assert(nv[i as int] == q);
            }
        }
    }
}

/// The elements of `items`, sorted, each once.
pub fn sorted_unique(items: &Vec<Vec<char>>) -> (r: Vec<Vec<char>>)
    ensures
        strictly_sorted(text::views(r@)),
        forall|q: Seq<char>| member(text::views(r@), q) == member(text::views(items@), q),
{
    let mut r: Vec<Vec<char>> = Vec::new();
    let mut i: usize = 0;
    while i < items.len()
        invariant
            i <= items.len(),
            strictly_sorted(text::views(r@)),
            forall|q: Seq<char>| member(text::views(r@), q) == member(text::views(items@).take(i as int), q),
        decreases items.len() - i,
    {
        let x = items[i].clone();
        let ghost before = text::views(r@);
        insert_unique(&mut r, x);
        proof {
            let t = text::views(items@);
            let a = t.take(i + 1);
            let b = t.take(i as int);
            assert forall|q: Seq<char>| member(a, q) == (member(b, q) || q == items@[i as int]@) by {
                if member(a, q) {
                    let j = choose|j: int| 0 <= j < a.len() && a[j] == q;
                    if j < i {
                        assert(b[j] == q);
                    }
                }
                if member(b, q) {
                    let j = choose|j: int| 0 <= j < b.len() && b[j] == q;
                    assert(a[j] == q);
                }
                if q == items@[i as int]@ {
                    assert(a[i as int] == q);
                }
            }
        }
        i = i + 1;
    }
    assert(text::views(items@).take(items.len() as int) =~= text::views(items@));
    r
}


/// Whether `x` is one of the elements of `v`.
pub fn contains_chars(v: &Vec<Vec<char>>, x: &Vec<char>) -> (b: bool)
    ensures
        b == member(text::views(v@), x@),
{
    let mut i: usize = 0;
    while i < v.len()
        invariant
            i <= v.len(),
            forall|j: int| 0 <= j < i ==> text::views(v@)[j] != x@,
        decreases v.len() - i,
    {
        assert(text::views(v@)[i as int] == v@[i as int]@);
        if text::chars_eq(&v[i], x) {
            return true;
        }
        i = i + 1;
    }
    false
}

/// The elements of the strictly sorted list `a` that are not elements of
/// `b`, still in order.
pub fn sorted_difference(a: &Vec<Vec<char>>, b: &Vec<Vec<char>>) -> (r: Vec<Vec<char>>)
    requires
        strictly_sorted(text::views(a@)),
    ensures
        strictly_sorted(text::views(r@)),
        forall|q: Seq<char>| #[trigger] member(text::views(r@), q) == (member(text::views(a@), q) && !member(text::views(b@), q)),
{
    let ghost av = text::views(a@);
    let mut r: Vec<Vec<char>> = Vec::new();
    let mut i: usize = 0;
    while i < a.len()
        invariant
            i <= a.len(),
            av == text::views(a@),
            strictly_sorted(av),
            strictly_sorted(text::views(r@)),
            forall|j: int, k: int| 0 <= j < r.len() && i <= k < a.len() ==> text::lex_lt(#[trigger] text::views(r@)[j], #[trigger] av[k]),
            forall|q: Seq<char>| #[trigger] member(text::views(r@), q) == (member(av.take(i as int), q) && !member(text::views(b@), q)),
        decreases a.len() - i,
    {
        let ghost before = text::views(r@);
        assert(av[i as int] == a@[i as int]@);
        let inb = contains_chars(b, &a[i]);
        if !inb {
            let x = a[i].clone();
            r.push(x);
        }
        proof {
            let nr = text::views(r@);
            let bv = text::views(b@);
            if !inb {
                assert(nr =~= before.push(av[i as int]));
            } else {
                assert(nr =~= before);
            }
            assert forall|j: int, k: int| 0 <= j < nr.len() && i + 1 <= k < a.len() implies text::lex_lt(#[trigger] nr[j], #[trigger] av[k]) by {
                if j < before.len() {
                    assert(nr[j] == before[j]);
                } else {
                    assert(text::lex_lt(av[i as int], av[k]));
                }
            }
            assert forall|x: int, y: int| 0 <= x < y < nr.len() implies text::lex_lt(nr[x], nr[y]) by {
                if y < before.len() {
                    assert(nr[x] == before[x] && nr[y] == before[y]);
                } else {
                    assert(nr[x] == before[x]);
                    assert(text::lex_lt(before[x], av[i as int]));
                }
            }
            let t1 = av.take(i + 1);
            let t0 = av.take(i as int);
            assert forall|q: Seq<char>| #[trigger] member(nr, q) == (member(t1, q) && !member(bv, q)) by {
                if member(t1, q) {
                    let j = choose|j: int| 0 <= j < t1.len() && t1[j] == q;
                    if j < i {
                        assert(t0[j] == q);
                    }
                }
                if member(t0, q) {
                    let j = choose|j: int| 0 <= j < t0.len() && t0[j] == q;
                    assert(t1[j] == q);
                }
                if q == av[i as int] {
                    assert(t1[i as int] == q);
                }
                if member(nr, q) {
                    let j = choose|j: int| 0 <= j < nr.len() && nr[j] == q;
                    if j < before.len() {
                        assert(before[j] == q);
                        assert(member(before, q));
                    }
                }
                if member(before, q) {
                    let j = choose|j: int| 0 <= j < before.len() && before[j] == q;
                    assert(nr[j] == q);
                }
                if !inb && q == av[i as int] {
                    assert(nr[before.len() as int] == q);
                }
            }
        }
        i = i + 1;
    }
    assert(av.take(a.len() as int) =~= av);
    r
}

/// A strictly sorted list is fixed by its elements: two with the same
/// elements are the same list.
pub proof fn lemma_sorted_same_members(a: Seq<Seq<char>>, b: Seq<Seq<char>>)
    requires
        strictly_sorted(a),
        strictly_sorted(b),
        forall|q: Seq<char>| member(a, q) == member(b, q),
    ensures
        a == b,
    decreases a.len(),
{
    if a.len() == 0 {
        if b.len() > 0 {
            assert(member(b, b[0]));
        }
        assert(a =~= b);
    } else {
        assert(member(a, a[0]));
        assert(member(b, a[0]));
        assert(b.len() > 0);
        assert(member(b, b[0]));
        assert(member(a, b[0]));
        let i = choose|i: int| 0 <= i < a.len() && a[i] == b[0];
        let j = choose|j: int| 0 <= j < b.len() && b[j] == a[0];
        if a[0] != b[0] {
            assert(i > 0 && j > 0);
            assert(text::lex_lt(a[0], a[i]));
            assert(text::lex_lt(b[0], b[j]));
            text::lemma_lex_asymmetric(a[0], b[0]);
        }
        let a1 = a.drop_first();
        let b1 = b.drop_first();
        assert forall|q: Seq<char>| member(a1, q) == member(b1, q) by {
            if member(a1, q) {
                let k = choose|k: int| 0 <= k < a1.len() && a1[k] == q;
                assert(a[k + 1] == q);
                assert(text::lex_lt(a[0], a[k + 1]));
                text::lemma_lex_irreflexive(q);
                assert(member(b, q));
                let m = choose|m: int| 0 <= m < b.len() && b[m] == q;
                assert(m != 0);
                assert(b1[m - 1] == q);
            }
            if member(b1, q) {
                let k = choose|k: int| 0 <= k < b1.len() && b1[k] == q;
                assert(b[k + 1] == q);
                assert(text::lex_lt(b[0], b[k + 1]));
                text::lemma_lex_irreflexive(q);
                assert(member(a, q));
                let m = choose|m: int| 0 <= m < a.len() && a[m] == q;
                assert(m != 0);
                assert(a1[m - 1] == q);
            }
        }
        assert(strictly_sorted(a1)) by {
            assert forall|x: int, y: int| 0 <= x < y < a1.len() implies text::lex_lt(a1[x], a1[y]) by {
                assert(a1[x] == a[x + 1] && a1[y] == a[y + 1]);
            }
        }
        assert(strictly_sorted(b1)) by {
            assert forall|x: int, y: int| 0 <= x < y < b1.len() implies text::lex_lt(b1[x], b1[y]) by {
                assert(b1[x] == b[x + 1] && b1[y] == b[y + 1]);
            }
        }
        lemma_sorted_same_members(a1, b1);
        assert(a =~= b) by {
            assert(a.len() == a1.len() + 1);
            assert forall|k: int| 0 <= k < a.len() implies a[k] == b[k] by {
                if k > 0 {
                    assert(a[k] == a1[k - 1]);
                    assert(b[k] == b1[k - 1]);
                }
            }
        }
    }
}


/// Whether `u` lists, strictly sorted, exactly the texts that satisfy `p`.
pub open spec fn lists(u: Seq<Seq<char>>, p: spec_fn(Seq<char>) -> bool) -> bool {
    strictly_sorted(u) && forall|q: Seq<char>| #[trigger] member(u, q) == p(q)
}

/// The texts that satisfy `p`, strictly sorted: the one list that `lists`
/// them, where there is one.
pub open spec fn sorted_of(p: spec_fn(Seq<char>) -> bool) -> Seq<Seq<char>> {
    choose|u: Seq<Seq<char>>| lists(u, p)
}

/// A list that lists the texts satisfying `p` is `sorted_of(p)`.
pub proof fn lemma_sorted_of(u: Seq<Seq<char>>, p: spec_fn(Seq<char>) -> bool)
    requires
        lists(u, p),
    ensures
        sorted_of(p) == u,
{
    let c = sorted_of(p);
    assert(lists(c, p));
    assert forall|q: Seq<char>| member(c, q) == member(u, q) by {
        assert(member(c, q) == p(q));
        assert(member(u, q) == p(q));
    }
    lemma_sorted_same_members(c, u);
}


/// Where `x` goes in the strictly sorted list `u`: after every element that
/// sorts before it.
pub open spec fn insert_pos(u: Seq<Seq<char>>, x: Seq<char>) -> int
    decreases u.len(),
{
    if u.len() == 0 {
        0
    } else if text::lex_lt(u.last(), x) {
        u.len() as int
    } else {
        insert_pos(u.drop_last(), x)
    }
}

proof fn lemma_insert_pos(u: Seq<Seq<char>>, x: Seq<char>)
    requires
        strictly_sorted(u),
        !member(u, x),
    ensures
        0 <= insert_pos(u, x) <= u.len(),
        forall|j: int| 0 <= j < insert_pos(u, x) ==> text::lex_lt(#[trigger] u[j], x),
        forall|j: int| insert_pos(u, x) <= j < u.len() ==> text::lex_lt(x, #[trigger] u[j]),
    decreases u.len(),
{
    if u.len() > 0 {
        let k = insert_pos(u, x);
        if text::lex_lt(u.last(), x) {
            assert forall|j: int| 0 <= j < u.len() implies text::lex_lt(#[trigger] u[j], x) by {
                if j < u.len() - 1 {
                    assert(text::lex_lt(u[j], u.last()));
                    text::lemma_lex_transitive(u[j], u.last(), x);
                }
            }
        } else {
            let u0 = u.drop_last();
            assert(strictly_sorted(u0)) by {
                assert forall|a: int, b: int| 0 <= a < b < u0.len() implies text::lex_lt(u0[a], u0[b]) by {
                    assert(u0[a] == u[a] && u0[b] == u[b]);
                }
            }
            assert(!member(u0, x)) by {
                if member(u0, x) {
                    let j = choose|j: int| 0 <= j < u0.len() && u0[j] == x;
                    assert(u[j] == x);
                }
            }
            lemma_insert_pos(u0, x);
            assert(u.last() != x) by {
                assert(u[u.len() - 1] == u.last());
            }
            text::lemma_lex_total(u.last(), x);
            assert forall|j: int| 0 <= j < k implies text::lex_lt(#[trigger] u[j], x) by {
                assert(u[j] == u0[j]);
            }
            assert forall|j: int| k <= j < u.len() implies text::lex_lt(x, #[trigger] u[j]) by {
                if j < u.len() - 1 {
                    assert(u[j] == u0[j]);
                }
            }
        }
    }
}

/// Every set of texts drawn from a finite list has a sorted listing: the
/// texts satisfying `p`, where each of them is an element of `s`, are listed
/// by `sorted_of(p)`.
pub proof fn lemma_listing_exists(s: Seq<Seq<char>>, p: spec_fn(Seq<char>) -> bool)
    requires
        forall|q: Seq<char>| p(q) ==> member(s, q),
    ensures
        lists(sorted_of(p), p),
    decreases s.len(),
{
    if s.len() == 0 {
        let u = Seq::<Seq<char>>::empty();
        assert forall|q: Seq<char>| #[trigger] member(u, q) == p(q) by {
            if p(q) {
                assert(member(s, q));
            }
        }
        assert(lists(u, p));
    } else {
        let x = s.last();
        let s0 = s.drop_last();
        let p0 = |q: Seq<char>| p(q) && q != x;
        assert forall|q: Seq<char>| p0(q) implies member(s0, q) by {
            assert(p(q) && q != x);
            assert(member(s, q));
            let j = choose|j: int| 0 <= j < s.len() && s[j] == q;
            assert(s[s.len() - 1] == x);
            assert(j != s.len() - 1);
            assert(s0[j] == q);
        }
        lemma_listing_exists(s0, p0);
        let u0 = sorted_of(p0);
        if !p(x) {
            assert forall|q: Seq<char>| #[trigger] member(u0, q) == p(q) by {
                assert(member(u0, q) == p0(q));
            }
            assert(lists(u0, p));
        } else {
            assert(!member(u0, x)) by {
                assert(member(u0, x) == p0(x));
            }
            lemma_insert_pos(u0, x);
            let k = insert_pos(u0, x);
            let u = u0.insert(k, x);
            assert(strictly_sorted(u)) by {
                assert forall|a: int, b: int| 0 <= a < b < u.len() implies text::lex_lt(u[a], u[b]) by {
                    if b < k {
                        assert(u[a] == u0[a] && u[b] == u0[b]);
                    } else if b == k {
                        assert(u[a] == u0[a]);
                    } else if a < k {
                        assert(u[a] == u0[a] && u[b] == u0[b - 1]);
                        assert(text::lex_lt(u0[a], x));
                        assert(text::lex_lt(x, u0[b - 1]));
                        text::lemma_lex_transitive(u0[a], x, u0[b - 1]);
                    } else if a == k {
                        assert(u[b] == u0[b - 1]);
                    } else {
                        assert(u[a] == u0[a - 1] && u[b] == u0[b - 1]);
                    }
                }
            }
            assert forall|q: Seq<char>| #[trigger] member(u, q) == p(q) by {
                assert(member(u0, q) == p0(q));
                if member(u, q) {
                    let j = choose|j: int| 0 <= j < u.len() && u[j] == q;
                    if j < k {
                        assert(u0[j] == q);
                    } else if j > k {
                        assert(u0[j - 1] == q);
                    }
                }
                if member(u0, q) {
                    let j = choose|j: int| 0 <= j < u0.len() && u0[j] == q;
                    if j < k {
                        assert(u[j] == q);
                    } else {
                        assert(u[j + 1] == q);
                    }
                }
                if q == x {
                    assert(u[k] == q);
                }
            }
            assert(lists(u, p));
        }
    }
}

} // verus!
