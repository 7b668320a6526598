//! Counting, keeping and summing over sequences, with the facts about them
//! that the ledger's invariants rest on.

use vstd::prelude::*;

verus! {

/// How many elements of `s` satisfy `p`.
pub open spec fn count_where<T>(s: Seq<T>, p: spec_fn(T) -> bool) -> nat
    decreases s.len(),
{
    if s.len() == 0 {
        0
    } else {
        count_where(s.drop_last(), p) + if p(s.last()) {
            1nat
        } else {
            0nat
        }
    }
}

/// The elements of `s` that satisfy `p`, in their order.
pub open spec fn keep_where<T>(s: Seq<T>, p: spec_fn(T) -> bool) -> Seq<T>
    decreases s.len(),
{
    if s.len() == 0 {
        s
    } else if p(s.last()) {
        keep_where(s.drop_last(), p).push(s.last())
    } else {
        keep_where(s.drop_last(), p)
    }
}

/// The sum of `f` over the elements of `s` that satisfy `p`.
pub open spec fn sum_where<T>(s: Seq<T>, p: spec_fn(T) -> bool, f: spec_fn(T) -> int) -> int
    decreases s.len(),
{
    if s.len() == 0 {
        0
    } else {
        sum_where(s.drop_last(), p, f) + if p(s.last()) {
            f(s.last())
        } else {
            0
        }
    }
}

/// Nothing is counted exactly when no element satisfies the predicate.
pub proof fn count_is_zero<T>(s: Seq<T>, p: spec_fn(T) -> bool)
    ensures
        (count_where(s, p) == 0) == (forall|i: int| 0 <= i < s.len() ==> !p(#[trigger] s[i])),
    decreases s.len(),
{
    if s.len() > 0 {
        let t = s.drop_last();
        count_is_zero(t, p);
        if count_where(s, p) == 0 {
            assert forall|i: int| 0 <= i < s.len() implies !p(#[trigger] s[i]) by {
                if i < t.len() {
                    assert(t[i] == s[i]);
                }
            }
        } else if !p(s.last()) {
            let i = choose|i: int| 0 <= i < t.len() && p(#[trigger] t[i]);
            assert(s[i] == t[i]);
        }
    }
}

/// An element that satisfies the predicate is counted.
pub proof fn count_has<T>(s: Seq<T>, p: spec_fn(T) -> bool, i: int)
    requires
        0 <= i < s.len(),
        p(s[i]),
    ensures
        count_where(s, p) >= 1,
{
    count_is_zero(s, p);
}

/// Where something is counted, some element satisfies the predicate.
pub proof fn count_witness<T>(s: Seq<T>, p: spec_fn(T) -> bool) -> (i: int)
    requires
        count_where(s, p) >= 1,
    ensures
        0 <= i < s.len(),
        p(s[i]),
{
    count_is_zero(s, p);
    choose|i: int| 0 <= i < s.len() && p(#[trigger] s[i])
}

/// Where two elements are counted, one of them stands at another place than
/// `i`.
pub proof fn count_other_witness<T>(s: Seq<T>, p: spec_fn(T) -> bool, i: int) -> (j: int)
    requires
        count_where(s, p) >= 2,
        0 <= i < s.len(),
    ensures
        0 <= j < s.len(),
        j != i,
        p(s[j]),
    decreases s.len(),
{
    let t = s.drop_last();
    if p(s.last()) && i != s.len() - 1 {
        s.len() - 1
    } else if i < t.len() {
        let j = count_other_witness(t, p, i);
        assert(t[j] == s[j]);
        j
    } else {
        let j = count_witness(t, p);
        assert(t[j] == s[j]);
        j
    }
}

/// Two elements at different places that satisfy the predicate are counted
/// as two.
pub proof fn count_two<T>(s: Seq<T>, p: spec_fn(T) -> bool, i: int, j: int)
    requires
        0 <= i < j < s.len(),
        p(s[i]),
        p(s[j]),
    ensures
        count_where(s, p) >= 2,
    decreases s.len(),
{
    let t = s.drop_last();
    if j == s.len() - 1 {
        assert(t[i] == s[i]);
        count_has(t, p, i);
    } else {
        assert(t[i] == s[i] && t[j] == s[j]);
        count_two(t, p, i, j);
    }
}

/// Every kept element is an element of the sequence that satisfies the
/// predicate.
pub proof fn kept_is_member<T>(s: Seq<T>, p: spec_fn(T) -> bool, k: int) -> (i: int)
    requires
        0 <= k < keep_where(s, p).len(),
    ensures
        0 <= i < s.len(),
        s[i] == keep_where(s, p)[k],
        p(s[i]),
    decreases s.len(),
{
    let t = s.drop_last();
    if p(s.last()) && k == keep_where(t, p).len() {
        s.len() - 1
    } else {
        let i = kept_is_member(t, p, k);
        assert(t[i] == s[i]);
        i
    }
}

/// As many elements are kept as satisfy the predicate.
pub proof fn kept_count<T>(s: Seq<T>, p: spec_fn(T) -> bool)
    ensures
        keep_where(s, p).len() == count_where(s, p),
    decreases s.len(),
{
    if s.len() > 0 {
        kept_count(s.drop_last(), p);
    }
}

/// Counting `p` among the elements kept by `q`, where `q` holds of every
/// element that `p` holds of: nothing counted is lost.
pub proof fn count_keep_all<T>(s: Seq<T>, q: spec_fn(T) -> bool, p: spec_fn(T) -> bool)
    requires
        forall|i: int| 0 <= i < s.len() && p(#[trigger] s[i]) ==> q(s[i]),
    ensures
        count_where(keep_where(s, q), p) == count_where(s, p),
    decreases s.len(),
{
    if s.len() > 0 {
        let t = s.drop_last();
        assert forall|i: int| 0 <= i < t.len() && p(#[trigger] t[i]) implies q(t[i]) by {
            assert(t[i] == s[i]);
        }
        count_keep_all(t, q, p);
        if q(s.last()) {
            assert(keep_where(s, q).drop_last() =~= keep_where(t, q));
        }
    }
}

/// Counting `p` among the elements kept by `q`, where `q` holds of no
/// element that `p` holds of: nothing is counted.
pub proof fn count_keep_none<T>(s: Seq<T>, q: spec_fn(T) -> bool, p: spec_fn(T) -> bool)
    requires
        forall|i: int| 0 <= i < s.len() && p(#[trigger] s[i]) ==> !q(s[i]),
    ensures
        count_where(keep_where(s, q), p) == 0,
    decreases s.len(),
{
    if s.len() > 0 {
        let t = s.drop_last();
        assert forall|i: int| 0 <= i < t.len() && p(#[trigger] t[i]) implies !q(t[i]) by {
            assert(t[i] == s[i]);
        }
        count_keep_none(t, q, p);
        if q(s.last()) {
            assert(keep_where(s, q).drop_last() =~= keep_where(t, q));
        }
    }
}

/// Keeping never raises a count.
pub proof fn count_keep_le<T>(s: Seq<T>, q: spec_fn(T) -> bool, p: spec_fn(T) -> bool)
    ensures
        count_where(keep_where(s, q), p) <= count_where(s, p),
    decreases s.len(),
{
    if s.len() > 0 {
        let t = s.drop_last();
        count_keep_le(t, q, p);
        if q(s.last()) {
            assert(keep_where(s, q).drop_last() =~= keep_where(t, q));
        }
    }
}

/// Counting among mapped elements is counting the elements whose image
/// satisfies the predicate.
pub proof fn count_map<T, U>(
    s: Seq<T>,
    g: spec_fn(T) -> U,
    p: spec_fn(U) -> bool,
    q: spec_fn(T) -> bool,
)
    requires
        forall|i: int| 0 <= i < s.len() ==> q(#[trigger] s[i]) == p(g(s[i])),
    ensures
        count_where(s.map_values(g), p) == count_where(s, q),
    decreases s.len(),
{
    if s.len() > 0 {
        let t = s.drop_last();
        assert forall|i: int| 0 <= i < t.len() implies q(#[trigger] t[i]) == p(g(t[i])) by {
            assert(t[i] == s[i]);
        }
        count_map(t, g, p, q);
        assert(s.map_values(g).drop_last() =~= t.map_values(g));
    }
}

/// A sum of measures that all lie between `lo` and `hi` lies between the
/// bounds times the length.
pub proof fn sum_bounds<T>(
    s: Seq<T>,
    p: spec_fn(T) -> bool,
    f: spec_fn(T) -> int,
    lo: int,
    hi: int,
)
    requires
        lo <= 0 <= hi,
        forall|i: int| 0 <= i < s.len() ==> lo <= f(#[trigger] s[i]) <= hi,
    ensures
        s.len() * lo <= sum_where(s, p, f) <= s.len() * hi,
    decreases s.len(),
{
    if s.len() > 0 {
        let t = s.drop_last();
        assert forall|i: int| 0 <= i < t.len() implies lo <= f(#[trigger] t[i]) <= hi by {
            assert(t[i] == s[i]);
        }
        sum_bounds(t, p, f, lo, hi);
        assert(lo <= f(s[s.len() - 1]) <= hi);
        assert(s.len() * lo == t.len() * lo + lo) by (nonlinear_arith)
            requires
                s.len() == t.len() + 1,
        ;
        assert(s.len() * hi == t.len() * hi + hi) by (nonlinear_arith)
            requires
                s.len() == t.len() + 1,
        ;
    }
}

/// Every element.
pub open spec fn every<T>() -> spec_fn(T) -> bool {
    |x: T| true
}

/// Summing over what is kept is summing over what is selected.
pub proof fn sum_of_kept<T>(s: Seq<T>, p: spec_fn(T) -> bool, f: spec_fn(T) -> int)
    ensures
        sum_where(keep_where(s, p), every(), f) == sum_where(s, p, f),
    decreases s.len(),
{
    if s.len() > 0 {
        sum_of_kept(s.drop_last(), p, f);
        if p(s.last()) {
            assert(keep_where(s, p).drop_last() =~= keep_where(s.drop_last(), p));
        }
    }
}

/// Two selections that agree on every element sum the same.
pub proof fn sum_same<T>(
    s: Seq<T>,
    p: spec_fn(T) -> bool,
    q: spec_fn(T) -> bool,
    f: spec_fn(T) -> int,
)
    requires
        forall|i: int| 0 <= i < s.len() ==> p(#[trigger] s[i]) == q(s[i]),
    ensures
        sum_where(s, p, f) == sum_where(s, q, f),
    decreases s.len(),
{
    if s.len() > 0 {
        let t = s.drop_last();
        assert forall|i: int| 0 <= i < t.len() implies p(#[trigger] t[i]) == q(t[i]) by {
            assert(t[i] == s[i]);
        }
        sum_same(t, p, q, f);
        assert(p(s[s.len() - 1]) == q(s[s.len() - 1]));
    }
}

/// Where no element is selected, the sum is zero.
pub proof fn sum_of_none<T>(s: Seq<T>, p: spec_fn(T) -> bool, f: spec_fn(T) -> int)
    requires
        forall|i: int| 0 <= i < s.len() ==> !p(#[trigger] s[i]),
    ensures
        sum_where(s, p, f) == 0,
    decreases s.len(),
{
    if s.len() > 0 {
        let t = s.drop_last();
        assert forall|i: int| 0 <= i < t.len() implies !p(#[trigger] t[i]) by {
            assert(t[i] == s[i]);
        }
        sum_of_none(t, p, f);
        assert(!p(s[s.len() - 1]));
    }
}

/// The texts of `items` without repeats, each at the place of its first
/// occurrence.
pub open spec fn distinct_of(items: Seq<Seq<char>>) -> Seq<Seq<char>>
    decreases items.len(),
{
    if items.len() == 0 {
        items
    } else if distinct_of(items.drop_last()).contains(items.last()) {
        distinct_of(items.drop_last())
    } else {
        distinct_of(items.drop_last()).push(items.last())
    }
}

/// No text occurs twice among the distinct ones.
pub proof fn distinct_has_no_repeats(items: Seq<Seq<char>>)
    ensures
        forall|a: int, b: int|
            #![trigger distinct_of(items)[a], distinct_of(items)[b]]
            0 <= a < b < distinct_of(items).len() ==> distinct_of(items)[a] != distinct_of(
                items,
            )[b],
    decreases items.len(),
{
    if items.len() > 0 {
        let rest = distinct_of(items.drop_last());
        distinct_has_no_repeats(items.drop_last());
        let d = distinct_of(items);
        if !rest.contains(items.last()) {
            assert forall|a: int, b: int|
                #![trigger d[a], d[b]]
                0 <= a < b < d.len() implies d[a] != d[b] by {
                assert(d[a] == rest[a]);
                if b < rest.len() {
                    assert(d[b] == rest[b]);
                } else {
                    assert(rest.contains(rest[a]));
                }
            }
        }
    }
}

/// Every text occurs among the distinct ones.
pub proof fn distinct_has_all(items: Seq<Seq<char>>, i: int)
    requires
        0 <= i < items.len(),
    ensures
        distinct_of(items).contains(items[i]),
    decreases items.len(),
{
    let rest = distinct_of(items.drop_last());
    let d = distinct_of(items);
    if i == items.len() - 1 {
        if !rest.contains(items.last()) {
            assert(d[d.len() - 1] == items[i]);
        }
    } else {
        distinct_has_all(items.drop_last(), i);
        assert(items.drop_last()[i] == items[i]);
        let w = choose|w: int| 0 <= w < rest.len() && rest[w] == items[i];
        assert(d[w] == items[i]);
    }
}

/// Whether the numbers that `id` gives to the elements of `s` rise strictly
/// along `s`.
pub open spec fn ascending<T>(s: Seq<T>, id: spec_fn(T) -> int) -> bool {
    forall|i: int, j: int|
        #![trigger s[i], s[j]]
        0 <= i < j < s.len() ==> id(s[i]) < id(s[j])
}

/// What is kept of an ascending sequence is ascending.
pub proof fn keep_ascending<T>(s: Seq<T>, p: spec_fn(T) -> bool, id: spec_fn(T) -> int)
    requires
        ascending(s, id),
    ensures
        ascending(keep_where(s, p), id),
    decreases s.len(),
{
    if s.len() > 0 {
        let t = s.drop_last();
        assert(ascending(t, id)) by {
            assert forall|i: int, j: int|
                #![trigger t[i], t[j]]
                0 <= i < j < t.len() implies id(t[i]) < id(t[j]) by {
                assert(t[i] == s[i] && t[j] == s[j]);
            }
        }
        keep_ascending(t, p, id);
        if p(s.last()) {
            let r = keep_where(t, p);
            let u = r.push(s.last());
            assert forall|i: int, j: int|
                #![trigger u[i], u[j]]
                0 <= i < j < u.len() implies id(u[i]) < id(u[j]) by {
                if j == r.len() {
                    let k = kept_is_member(t, p, i);
                    assert(t[k] == s[k]);
                    assert(id(s[k]) < id(s[s.len() - 1]));
                } else {
                    assert(u[i] == r[i] && u[j] == r[j]);
                }
            }
        }
    }
}

/// In an ascending sequence, an element found by its number is found at one
/// place only.
pub proof fn ascending_distinct<T>(s: Seq<T>, id: spec_fn(T) -> int, i: int, j: int)
    requires
        ascending(s, id),
        0 <= i < s.len(),
        0 <= j < s.len(),
        id(s[i]) == id(s[j]),
    ensures
        i == j,
{
    if i < j {
        assert(id(s[i]) < id(s[j]));
    } else if j < i {
        assert(id(s[j]) < id(s[i]));
    }
}

} // verus!
