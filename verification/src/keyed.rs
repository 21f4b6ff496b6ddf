//! Sequences of named entries kept in strictly increasing name order, the way a
//! `BTreeSet` or `BTreeMap` keyed by a string keeps them, and the maps they stand for.
use crate::text::{compare_str, lemma_name_order, name_lt, str_eq, Order};
use vstd::prelude::*;

verus! {

/// An entry that carries a name.
pub trait Named {
    spec fn name_view(&self) -> Seq<char>;

    fn name_str(&self) -> (r: &str)
        ensures
            r@ == self.name_view(),
    ;
}

/// The names of `s` strictly increase, so no name occurs twice.
pub open spec fn sorted_names<E: Named>(s: Seq<E>) -> bool {
    forall|i: int, j: int|
        0 <= i < j < s.len() ==> name_lt(#[trigger] s[i].name_view(), #[trigger] s[j].name_view())
}

/// Some entry of `s` carries the name `n`.
pub open spec fn has_name<E: Named>(s: Seq<E>, n: Seq<char>) -> bool {
    exists|i: int| 0 <= i < s.len() && #[trigger] s[i].name_view() == n
}

/// Each name of `s` mapped to the last entry that carries it: what inserting the
/// entries in order into a map that replaces on a repeated key leaves.
pub open spec fn last_by_name<E: Named>(s: Seq<E>) -> Map<Seq<char>, E>
    decreases s.len(),
{
    if s.len() == 0 {
        Map::empty()
    } else {
        last_by_name(s.drop_last()).insert(s.last().name_view(), s.last())
    }
}

/// Each name of `s` mapped to the first entry that carries it: what inserting the
/// entries in order into a set that keeps the element already present leaves.
pub open spec fn first_by_name<E: Named>(s: Seq<E>) -> Map<Seq<char>, E>
    decreases s.len(),
{
    if s.len() == 0 {
        Map::empty()
    } else {
        let m = first_by_name(s.drop_last());
        if m.contains_key(s.last().name_view()) {
            m
        } else {
            m.insert(s.last().name_view(), s.last())
        }
    }
}

pub proof fn lemma_last_by_name_domain<E: Named>(s: Seq<E>)
    ensures
        forall|n: Seq<char>| #[trigger] last_by_name(s).contains_key(n) <==> has_name(s, n),
    decreases s.len(),
{
    if s.len() > 0 {
        let t = s.drop_last();
        let x = s[s.len() - 1];
        lemma_last_by_name_domain(t);
        assert(last_by_name(s) == last_by_name(t).insert(x.name_view(), x));
        assert forall|n: Seq<char>| #[trigger] last_by_name(s).contains_key(n) <==> has_name(s, n) by {
            lemma_has_name_push(t, x, n);
            assert(s == t.push(x));
        }
    }
}

/// Names of a sequence with one more entry.
pub proof fn lemma_has_name_push<E: Named>(t: Seq<E>, x: E, n: Seq<char>)
    ensures
        has_name(t.push(x), n) <==> has_name(t, n) || x.name_view() == n,
{
    let s = t.push(x);
    if has_name(s, n) {
        let i = choose|i: int| 0 <= i < s.len() && #[trigger] s[i].name_view() == n;
        if i < t.len() {
            assert(t[i] == s[i]);
        }
    }
    if has_name(t, n) {
        let i = choose|i: int| 0 <= i < t.len() && #[trigger] t[i].name_view() == n;
        assert(s[i] == t[i]);
    }
    if x.name_view() == n {
        assert(s[t.len() as int] == x);
    }
}

pub proof fn lemma_first_by_name_domain<E: Named>(s: Seq<E>)
    ensures
        forall|n: Seq<char>| #[trigger] first_by_name(s).contains_key(n) <==> has_name(s, n),
    decreases s.len(),
{
    if s.len() > 0 {
        let t = s.drop_last();
        let x = s[s.len() - 1];
        lemma_first_by_name_domain(t);
        let m = first_by_name(t);
        assert(first_by_name(s) == (if m.contains_key(x.name_view()) {
            m
        } else {
            m.insert(x.name_view(), x)
        }));
        assert forall|n: Seq<char>| #[trigger] first_by_name(s).contains_key(n) <==> has_name(s, n) by {
            lemma_has_name_push(t, x, n);
            assert(s == t.push(x));
        }
    }
}

/// In a sorted sequence each entry is what its name maps to.
pub proof fn lemma_sorted_lookup<E: Named>(s: Seq<E>, i: int)
    requires
        sorted_names(s),
        0 <= i < s.len(),
    ensures
        last_by_name(s).contains_key(s[i].name_view()),
        last_by_name(s)[s[i].name_view()] == s[i],
    decreases s.len(),
{
    if i < s.len() - 1 {
        let t = s.drop_last();
        assert(sorted_names(t)) by {
            assert forall|a: int, b: int| 0 <= a < b < t.len() implies name_lt(
                #[trigger] t[a].name_view(),
                #[trigger] t[b].name_view(),
            ) by {
                assert(s[a].name_view() == t[a].name_view());
                assert(s[b].name_view() == t[b].name_view());
            }
        }
        lemma_sorted_lookup(t, i);
        assert(name_lt(s[i].name_view(), s[s.len() - 1].name_view()));
        lemma_name_order(s[i].name_view(), s[i].name_view(), s[i].name_view());
        assert(t[i] == s[i]);
    }
}

/// Two sorted sequences with the same names and entries stand for the same map.
proof fn lemma_sorted_map_eq<E: Named>(s: Seq<E>, t: Seq<E>, m: Map<Seq<char>, E>)
    requires
        sorted_names(s),
        forall|n: Seq<char>| has_name(s, n) <==> #[trigger] m.contains_key(n),
        forall|i: int| 0 <= i < s.len() ==> m[#[trigger] s[i].name_view()] == s[i],
    ensures
        last_by_name(s) == m,
{
    lemma_last_by_name_domain(s);
    assert forall|n: Seq<char>| #[trigger] last_by_name(s).contains_key(n) <==> m.contains_key(n) by {}
    assert forall|n: Seq<char>| #[trigger] m.contains_key(n) implies last_by_name(s)[n] == m[n] by {
        let i = choose|i: int| 0 <= i < s.len() && #[trigger] s[i].name_view() == n;
        lemma_sorted_lookup(s, i);
    }
    assert(last_by_name(s) =~= m);
}

/// Inserting an entry with a new name at its place keeps the sequence sorted and adds it to the map.
pub proof fn lemma_sorted_insert<E: Named>(s: Seq<E>, p: int, x: E)
    requires
        sorted_names(s),
        0 <= p <= s.len(),
        forall|q: int| 0 <= q < p ==> name_lt(#[trigger] s[q].name_view(), x.name_view()),
        forall|q: int| p <= q < s.len() ==> name_lt(x.name_view(), #[trigger] s[q].name_view()),
    ensures
        sorted_names(s.insert(p, x)),
        !has_name(s, x.name_view()),
        last_by_name(s.insert(p, x)) == last_by_name(s).insert(x.name_view(), x),
{
    let r = s.insert(p, x);
    assert(!has_name(s, x.name_view())) by {
        if has_name(s, x.name_view()) {
            let i = choose|i: int| 0 <= i < s.len() && #[trigger] s[i].name_view() == x.name_view();
            lemma_name_order(x.name_view(), x.name_view(), x.name_view());
        }
    }
    assert(sorted_names(r)) by {
        assert forall|a: int, b: int| 0 <= a < b < r.len() implies name_lt(
            #[trigger] r[a].name_view(),
            #[trigger] r[b].name_view(),
        ) by {
            if a < p && b < p {
                assert(r[a] == s[a] && r[b] == s[b]);
            } else if a < p && b == p {
                assert(r[a] == s[a]);
            } else if a < p {
                assert(r[a] == s[a] && r[b] == s[b - 1]);
            } else if a == p {
                assert(r[b] == s[b - 1]);
            } else {
                assert(r[a] == s[a - 1] && r[b] == s[b - 1]);
            }
        }
    }
    let m = last_by_name(s).insert(x.name_view(), x);
    lemma_last_by_name_domain(s);
    assert forall|n: Seq<char>| has_name(r, n) <==> #[trigger] m.contains_key(n) by {
        if has_name(r, n) {
            let i = choose|i: int| 0 <= i < r.len() && #[trigger] r[i].name_view() == n;
            if i < p {
                assert(s[i].name_view() == n);
            } else if i > p {
                assert(s[i - 1].name_view() == n);
            }
        }
        if has_name(s, n) {
            let i = choose|i: int| 0 <= i < s.len() && #[trigger] s[i].name_view() == n;
            if i < p {
                assert(r[i].name_view() == n);
            } else {
                assert(r[i + 1].name_view() == n);
            }
        }
        if n == x.name_view() {
            assert(r[p].name_view() == n);
        }
    }
    assert forall|i: int| 0 <= i < r.len() implies m[#[trigger] r[i].name_view()] == r[i] by {
        if i < p {
            lemma_sorted_lookup(s, i);
            lemma_name_order(s[i].name_view(), x.name_view(), x.name_view());
        } else if i > p {
            lemma_sorted_lookup(s, i - 1);
            lemma_name_order(x.name_view(), s[i - 1].name_view(), x.name_view());
        }
    }
    lemma_sorted_map_eq(r, r, m);
}

/// Putting an entry in place of one with the same name keeps the sequence sorted and
/// replaces the entry in the map.
pub proof fn lemma_sorted_replace<E: Named>(s: Seq<E>, p: int, x: E)
    requires
        sorted_names(s),
        0 <= p < s.len(),
        s[p].name_view() == x.name_view(),
    ensures
        sorted_names(s.update(p, x)),
        last_by_name(s.update(p, x)) == last_by_name(s).insert(x.name_view(), x),
{
    let r = s.update(p, x);
    assert(sorted_names(r)) by {
        assert forall|a: int, b: int| 0 <= a < b < r.len() implies name_lt(
            #[trigger] r[a].name_view(),
            #[trigger] r[b].name_view(),
        ) by {
            assert(r[a].name_view() == s[a].name_view());
            assert(r[b].name_view() == s[b].name_view());
        }
    }
    let m = last_by_name(s).insert(x.name_view(), x);
    lemma_last_by_name_domain(s);
    assert forall|n: Seq<char>| has_name(r, n) <==> #[trigger] m.contains_key(n) by {
        if has_name(r, n) {
            let i = choose|i: int| 0 <= i < r.len() && #[trigger] r[i].name_view() == n;
            assert(s[i].name_view() == n);
        }
        if has_name(s, n) {
            let i = choose|i: int| 0 <= i < s.len() && #[trigger] s[i].name_view() == n;
            assert(r[i].name_view() == n);
        }
        if n == x.name_view() {
            assert(r[p].name_view() == n);
        }
    }
    assert forall|i: int| 0 <= i < r.len() implies m[#[trigger] r[i].name_view()] == r[i] by {
        if i != p {
            lemma_sorted_lookup(s, i);
            if i < p {
                lemma_name_order(s[i].name_view(), x.name_view(), x.name_view());
            } else {
                lemma_name_order(x.name_view(), s[i].name_view(), x.name_view());
            }
        }
    }
    lemma_sorted_map_eq(r, r, m);
}

/// Finds where the name `n` stands, or would stand, in a sorted vector: the first
/// position whose name is not before `n`, and whether the name there is `n`.
pub fn locate<E: Named>(v: &Vec<E>, n: &str) -> (r: (usize, bool))
    requires
        sorted_names(v@),
    ensures
        r.0 <= v@.len(),
        forall|q: int| 0 <= q < r.0 ==> name_lt(#[trigger] v@[q].name_view(), n@),
        r.1 <==> r.0 < v@.len() && v@[r.0 as int].name_view() == n@,
        !r.1 ==> forall|q: int| r.0 <= q < v@.len() ==> name_lt(n@, #[trigger] v@[q].name_view()),
{
    let mut lo: usize = 0;
    let mut hi: usize = v.len();
    while lo < hi
        invariant
            lo <= hi <= v@.len(),
            sorted_names(v@),
            forall|q: int| 0 <= q < lo ==> name_lt(#[trigger] v@[q].name_view(), n@),
            forall|q: int| hi <= q < v@.len() ==> !name_lt(#[trigger] v@[q].name_view(), n@),
        decreases hi - lo,
    {
        let mid = lo + (hi - lo) / 2;
        match compare_str(v[mid].name_str(), n) {
            Order::Less => {
                proof {
                    assert forall|q: int| 0 <= q < mid + 1 implies name_lt(#[trigger] v@[q].name_view(), n@) by {
                        if q < mid {
                            lemma_name_order(v@[q].name_view(), v@[mid as int].name_view(), n@);
                        }
                    }
                }
                lo = mid + 1;
            },
            _ => {
                proof {
                    assert forall|q: int| mid <= q < v@.len() implies !name_lt(#[trigger] v@[q].name_view(), n@) by {
                        if q > mid && q < hi {
                            lemma_name_order(v@[mid as int].name_view(), v@[q].name_view(), n@);
                            lemma_name_order(n@, v@[mid as int].name_view(), v@[q].name_view());
                            lemma_name_order(v@[q].name_view(), n@, v@[mid as int].name_view());
                        }
                    }
                }
                hi = mid;
            },
        }
    }
    if lo < v.len() && str_eq(v[lo].name_str(), n) {
        (lo, true)
    } else {
        proof {
            assert forall|q: int| lo <= q < v@.len() implies name_lt(n@, #[trigger] v@[q].name_view()) by {
                lemma_name_order(v@[lo as int].name_view(), n@, n@);
                if q > lo {
                    lemma_name_order(n@, v@[lo as int].name_view(), v@[q].name_view());
                }
            }
        }
        (lo, false)
    }
}

/// Collecting entries into a set that keeps the element already present keeps, for each
/// name, the first entry that carries it.
pub proof fn law_first_by_name_keeps_first<E: Named>(s: Seq<E>)
    ensures
        forall|n: Seq<char>| #[trigger] first_by_name(s).contains_key(n) <==> has_name(s, n),
        forall|n: Seq<char>| #[trigger] first_by_name(s).contains_key(n) ==> exists|i: int| {
            &&& 0 <= i < s.len()
            &&& #[trigger] s[i].name_view() == n
            &&& first_by_name(s)[n] == s[i]
            &&& forall|k: int| 0 <= k < i ==> s[k].name_view() != n
        },
    decreases s.len(),
{
    lemma_first_by_name_domain(s);
    if s.len() > 0 {
        let t = s.drop_last();
        let x = s[s.len() - 1];
        law_first_by_name_keeps_first(t);
        lemma_first_by_name_domain(t);
        let m = first_by_name(t);
        assert(first_by_name(s) == (if m.contains_key(x.name_view()) {
            m
        } else {
            m.insert(x.name_view(), x)
        }));
        assert forall|n: Seq<char>| #[trigger] first_by_name(s).contains_key(n) implies exists|i: int| {
            &&& 0 <= i < s.len()
            &&& #[trigger] s[i].name_view() == n
            &&& first_by_name(s)[n] == s[i]
            &&& forall|k: int| 0 <= k < i ==> s[k].name_view() != n
        } by {
            if m.contains_key(n) {
                let i = choose|i: int| {
                    &&& 0 <= i < t.len()
                    &&& #[trigger] t[i].name_view() == n
                    &&& m[n] == t[i]
                    &&& forall|k: int| 0 <= k < i ==> t[k].name_view() != n
                };
                assert(s[i] == t[i]);
                assert forall|k: int| 0 <= k < i implies s[k].name_view() != n by {
                    assert(s[k] == t[k]);
                }
            } else {
                let i = s.len() - 1;
                assert(s[i].name_view() == n);
                assert forall|k: int| 0 <= k < i implies s[k].name_view() != n by {
                    assert(s[k] == t[k]);
                    if t[k].name_view() == n {
                        assert(has_name(t, n));
                    }
                }
            }
        }
    }
}

/// Collecting entries into a map that replaces on a repeated name keeps, for each name,
/// the last entry that carries it.
pub proof fn law_last_by_name_keeps_last<E: Named>(s: Seq<E>)
    ensures
        forall|n: Seq<char>| #[trigger] last_by_name(s).contains_key(n) <==> has_name(s, n),
        forall|n: Seq<char>| #[trigger] last_by_name(s).contains_key(n) ==> exists|i: int| {
            &&& 0 <= i < s.len()
            &&& #[trigger] s[i].name_view() == n
            &&& last_by_name(s)[n] == s[i]
            &&& forall|k: int| i < k < s.len() ==> s[k].name_view() != n
        },
    decreases s.len(),
{
    lemma_last_by_name_domain(s);
    if s.len() > 0 {
        let t = s.drop_last();
        let x = s[s.len() - 1];
        law_last_by_name_keeps_last(t);
        let m = last_by_name(t);
        assert(last_by_name(s) == m.insert(x.name_view(), x));
        assert forall|n: Seq<char>| #[trigger] last_by_name(s).contains_key(n) implies exists|i: int| {
            &&& 0 <= i < s.len()
            &&& #[trigger] s[i].name_view() == n
            &&& last_by_name(s)[n] == s[i]
            &&& forall|k: int| i < k < s.len() ==> s[k].name_view() != n
        } by {
            if n == x.name_view() {
                assert(s[s.len() - 1].name_view() == n);
            } else {
                let i = choose|i: int| {
                    &&& 0 <= i < t.len()
                    &&& #[trigger] t[i].name_view() == n
                    &&& m[n] == t[i]
                    &&& forall|k: int| i < k < t.len() ==> t[k].name_view() != n
                };
                assert(s[i] == t[i]);
                assert forall|k: int| i < k < s.len() implies s[k].name_view() != n by {
                    if k < t.len() {
                        assert(s[k] == t[k]);
                    }
                }
            }
        }
    }
}

} // verus!
