//! Stable sorting: what the sorted sequence is, and a routine that finds the
//! order of a list of keys.

use crate::seqs::{count_where, sum_where};
use crate::text::{text_before, text_lt, text_lt_asymmetric, text_lt_total, text_lt_transitive};
use vstd::prelude::*;

verus! {

/// What a row is ordered by: a number first, a text second.
pub struct SortKey {
    pub rank: i64,
    pub text: Vec<char>,
}

/// A key as a mathematical value.
pub struct SortKeyView {
    pub rank: i64,
    pub text: Seq<char>,
}

impl View for SortKey {
    type V = SortKeyView;

    open spec fn view(&self) -> SortKeyView {
        SortKeyView { rank: self.rank, text: self.text@ }
    }
}

/// The views of a sequence of keys.
pub open spec fn key_views(keys: Seq<SortKey>) -> Seq<SortKeyView> {
    keys.map_values(|k: SortKey| k@)
}

/// `a` is smaller than `b`: by rank, and among equal ranks by text.
pub open spec fn key_lt(a: SortKeyView, b: SortKeyView) -> bool {
    a.rank < b.rank || (a.rank == b.rank && text_lt(a.text, b.text))
}

/// `a` goes strictly before `b`: the smaller key first, or the larger one
/// first where the order is descending.
pub open spec fn goes_before(a: SortKeyView, b: SortKeyView, descending: bool) -> bool {
    if descending {
        key_lt(b, a)
    } else {
        key_lt(a, b)
    }
}

/// `s`, which is sorted, with `x` put behind every element that `x` does not
/// go strictly before.
pub open spec fn inserted<T>(s: Seq<T>, x: T, before: spec_fn(T, T) -> bool) -> Seq<T>
    decreases s.len(),
{
    if s.len() > 0 && before(x, s.last()) {
        inserted(s.drop_last(), x, before).push(s.last())
    } else {
        s.push(x)
    }
}

/// The elements of `s` sorted by `before`; elements of which neither goes
/// before the other keep the order they have in `s`.
pub open spec fn stable_sorted<T>(s: Seq<T>, before: spec_fn(T, T) -> bool) -> Seq<T>
    decreases s.len(),
{
    if s.len() == 0 {
        s
    } else {
        inserted(stable_sorted(s.drop_last(), before), s.last(), before)
    }
}

/// The order of positions that the keys at those positions give.
pub open spec fn position_order(keys: Seq<SortKeyView>, descending: bool) -> spec_fn(
    int,
    int,
) -> bool {
    |a: int, b: int| goes_before(keys[a], keys[b], descending)
}

/// The positions `0..n`.
pub open spec fn positions(n: nat) -> Seq<int> {
    Seq::new(n, |i: int| i)
}

/// A list of positions as integers.
pub open spec fn as_ints(order: Seq<usize>) -> Seq<int> {
    order.map_values(|i: usize| i as int)
}

/// Inserting keeps the length plus one.
pub proof fn inserted_len<T>(s: Seq<T>, x: T, before: spec_fn(T, T) -> bool)
    ensures
        inserted(s, x, before).len() == s.len() + 1,
    decreases s.len(),
{
    if s.len() > 0 && before(x, s.last()) {
        inserted_len(s.drop_last(), x, before);
    }
}

/// Sorting keeps the length.
pub proof fn sorted_len<T>(s: Seq<T>, before: spec_fn(T, T) -> bool)
    ensures
        stable_sorted(s, before).len() == s.len(),
    decreases s.len(),
{
    if s.len() > 0 {
        sorted_len(s.drop_last(), before);
        inserted_len(stable_sorted(s.drop_last(), before), s.last(), before);
    }
}

/// Where `x` goes before everything from position `p` on and not before the
/// element in front of `p`, inserting `x` puts it at `p`.
pub proof fn inserted_at<T>(s: Seq<T>, x: T, before: spec_fn(T, T) -> bool, p: int)
    requires
        0 <= p <= s.len(),
        forall|k: int| p <= k < s.len() ==> before(x, #[trigger] s[k]),
        p > 0 ==> !before(x, s[p - 1]),
    ensures
        inserted(s, x, before) == s.insert(p, x),
    decreases s.len(),
{
    if p == s.len() {
        assert(s.push(x) =~= s.insert(p, x));
    } else {
        let t = s.drop_last();
        assert(before(x, s[s.len() - 1]));
        assert forall|k: int| p <= k < t.len() implies before(x, #[trigger] t[k]) by {
            assert(t[k] == s[k]);
        }
        inserted_at(t, x, before, p);
        assert(t.insert(p, x).push(s.last()) =~= s.insert(p, x));
    }
}

/// Inserting and mapping can be done in either order, where the two orders
/// agree through the mapping.
pub proof fn inserted_map<T, U>(
    s: Seq<T>,
    x: T,
    f: spec_fn(T) -> U,
    before: spec_fn(T, T) -> bool,
    after: spec_fn(U, U) -> bool,
)
    requires
        forall|k: int| 0 <= k < s.len() ==> before(x, #[trigger] s[k]) == after(f(x), f(s[k])),
    ensures
        inserted(s, x, before).map_values(f) == inserted(s.map_values(f), f(x), after),
    decreases s.len(),
{
    let m = s.map_values(f);
    if s.len() > 0 && before(x, s.last()) {
        let t = s.drop_last();
        assert(before(x, s[s.len() - 1]));
        assert forall|k: int| 0 <= k < t.len() implies before(x, #[trigger] t[k]) == after(
            f(x),
            f(t[k]),
        ) by {
            assert(t[k] == s[k]);
        }
        inserted_map(t, x, f, before, after);
        assert(m.drop_last() =~= t.map_values(f));
        assert(inserted(t, x, before).push(s.last()).map_values(f) =~= inserted(
            t,
            x,
            before,
        ).map_values(f).push(f(s.last())));
    } else {
        if s.len() > 0 {
            assert(!before(x, s[s.len() - 1]));
        }
        assert(s.push(x).map_values(f) =~= m.push(f(x)));
    }
}

/// Every element of a sequence with `x` inserted is `x` or an element of the
/// sequence.
pub proof fn inserted_member<T>(s: Seq<T>, x: T, before: spec_fn(T, T) -> bool, k: int)
    requires
        0 <= k < inserted(s, x, before).len(),
    ensures
        inserted(s, x, before)[k] == x || exists|j: int|
            0 <= j < s.len() && #[trigger] s[j] == inserted(s, x, before)[k],
    decreases s.len(),
{
    if s.len() > 0 && before(x, s.last()) {
        let t = s.drop_last();
        inserted_len(t, x, before);
        if k == t.len() + 1 {
            assert(s[s.len() - 1] == inserted(s, x, before)[k]);
        } else {
            inserted_member(t, x, before, k);
            if inserted(t, x, before)[k] != x {
                let j = choose|j: int|
                    0 <= j < t.len() && #[trigger] t[j] == inserted(t, x, before)[k];
                assert(s[j] == t[j]);
            }
        }
    } else {
        if k < s.len() {
            assert(s[k] == inserted(s, x, before)[k]);
        }
    }
}

/// Every element of the sorted sequence is an element of the sequence.
pub proof fn sorted_member<T>(s: Seq<T>, before: spec_fn(T, T) -> bool, k: int)
    requires
        0 <= k < stable_sorted(s, before).len(),
    ensures
        exists|j: int| 0 <= j < s.len() && #[trigger] s[j] == stable_sorted(s, before)[k],
    decreases s.len(),
{
    if s.len() > 0 {
        let t = s.drop_last();
        let u = stable_sorted(t, before);
        inserted_member(u, s.last(), before, k);
        if inserted(u, s.last(), before)[k] == s.last() {
            assert(s[s.len() - 1] == s.last());
        } else {
            let i = choose|i: int|
                0 <= i < u.len() && #[trigger] u[i] == inserted(u, s.last(), before)[k];
            sorted_member(t, before, i);
            let j = choose|j: int| 0 <= j < t.len() && #[trigger] t[j] == u[i];
            assert(s[j] == t[j]);
        }
    }
}

/// Sorting and mapping can be done in either order, where the two orders
/// agree through the mapping.
pub proof fn sorted_map<T, U>(
    s: Seq<T>,
    f: spec_fn(T) -> U,
    before: spec_fn(T, T) -> bool,
    after: spec_fn(U, U) -> bool,
)
    requires
        forall|i: int, j: int|
            0 <= i < s.len() && 0 <= j < s.len() ==> before(#[trigger] s[i], #[trigger] s[j])
                == after(f(s[i]), f(s[j])),
    ensures
        stable_sorted(s, before).map_values(f) == stable_sorted(s.map_values(f), after),
    decreases s.len(),
{
    let m = s.map_values(f);
    if s.len() > 0 {
        let t = s.drop_last();
        let u = stable_sorted(t, before);
        assert forall|i: int, j: int| 0 <= i < t.len() && 0 <= j < t.len() implies before(
            #[trigger] t[i],
            #[trigger] t[j],
        ) == after(f(t[i]), f(t[j])) by {
            assert(t[i] == s[i] && t[j] == s[j]);
        }
        sorted_map(t, f, before, after);
        assert(m.drop_last() =~= t.map_values(f));
        assert forall|k: int| 0 <= k < u.len() implies before(s.last(), #[trigger] u[k])
            == after(f(s.last()), f(u[k])) by {
            sorted_member(t, before, k);
            let j = choose|j: int| 0 <= j < t.len() && #[trigger] t[j] == u[k];
            assert(s[j] == t[j]);
            assert(s[s.len() - 1] == s.last());
        }
        inserted_map(u, s.last(), f, before, after);
    } else {
        assert(stable_sorted(s, before).map_values(f) =~= stable_sorted(m, after));
    }
}

/// Whether `before` is an order in which elements can be sorted: it never
/// holds both ways, it is transitive, and so is its absence.
pub open spec fn is_sorting_order<T>(before: spec_fn(T, T) -> bool) -> bool {
    &&& forall|a: T, b: T| #[trigger] before(a, b) ==> !before(b, a)
    &&& forall|a: T, b: T, c: T| #[trigger] before(a, b) && #[trigger] before(b, c) ==> before(a, c)
    &&& forall|a: T, b: T, c: T|
        !#[trigger] before(a, b) && !#[trigger] before(b, c) ==> !before(a, c)
}

/// Whether no element of `s` goes strictly before an element in front of it.
pub open spec fn in_order<T>(s: Seq<T>, before: spec_fn(T, T) -> bool) -> bool {
    forall|i: int, j: int| #![trigger s[i], s[j]] 0 <= i < j < s.len() ==> !before(s[j], s[i])
}

/// A sorted sequence with an element inserted is sorted.
pub proof fn inserted_in_order<T>(s: Seq<T>, x: T, before: spec_fn(T, T) -> bool)
    requires
        is_sorting_order(before),
        in_order(s, before),
    ensures
        in_order(inserted(s, x, before), before),
    decreases s.len(),
{
    let r = inserted(s, x, before);
    if s.len() > 0 && before(x, s.last()) {
        let t = s.drop_last();
        let u = inserted(t, x, before);
        assert(in_order(t, before)) by {
            assert forall|i: int, j: int| #![trigger t[i], t[j]] 0 <= i < j < t.len() implies !before(
                t[j],
                t[i],
            ) by {
                assert(t[i] == s[i] && t[j] == s[j]);
            }
        }
        inserted_in_order(t, x, before);
        inserted_len(t, x, before);
        assert forall|i: int, j: int| #![trigger r[i], r[j]] 0 <= i < j < r.len() implies !before(
            r[j],
            r[i],
        ) by {
            if j == u.len() {
                inserted_member(t, x, before, i);
                if u[i] != x {
                    let k = choose|k: int| 0 <= k < t.len() && #[trigger] t[k] == u[i];
                    assert(s[k] == t[k]);
                    assert(!before(s[s.len() - 1], s[k]));
                }
            } else {
                assert(r[i] == u[i] && r[j] == u[j]);
            }
        }
    } else {
        assert forall|i: int, j: int| #![trigger r[i], r[j]] 0 <= i < j < r.len() implies !before(
            r[j],
            r[i],
        ) by {
            if j == s.len() {
                assert(!before(x, s[s.len() - 1]));
                if i < s.len() - 1 {
                    assert(!before(s[s.len() - 1], s[i]));
                }
            } else {
                assert(r[i] == s[i] && r[j] == s[j]);
            }
        }
    }
}

/// The sorted sequence is in order.
pub proof fn sorted_in_order<T>(s: Seq<T>, before: spec_fn(T, T) -> bool)
    requires
        is_sorting_order(before),
    ensures
        in_order(stable_sorted(s, before), before),
    decreases s.len(),
{
    if s.len() > 0 {
        sorted_in_order(s.drop_last(), before);
        inserted_in_order(stable_sorted(s.drop_last(), before), s.last(), before);
    }
}

/// Inserting an element adds it to every count that it belongs to, and
/// changes no other count.
pub proof fn inserted_counts<T>(
    s: Seq<T>,
    x: T,
    before: spec_fn(T, T) -> bool,
    p: spec_fn(T) -> bool,
)
    ensures
        count_where(inserted(s, x, before), p) == count_where(s, p) + if p(x) {
            1nat
        } else {
            0nat
        },
    decreases s.len(),
{
    if s.len() > 0 && before(x, s.last()) {
        let t = s.drop_last();
        inserted_counts(t, x, before, p);
        assert(inserted(t, x, before).push(s.last()).drop_last() =~= inserted(t, x, before));
    } else {
        assert(s.push(x).drop_last() =~= s);
    }
}

/// Sorting rearranges: whatever is counted among the elements is counted the
/// same among the sorted ones.
pub proof fn sorted_counts<T>(s: Seq<T>, before: spec_fn(T, T) -> bool, p: spec_fn(T) -> bool)
    ensures
        count_where(stable_sorted(s, before), p) == count_where(s, p),
    decreases s.len(),
{
    if s.len() > 0 {
        sorted_counts(s.drop_last(), before, p);
        inserted_counts(stable_sorted(s.drop_last(), before), s.last(), before, p);
    }
}

/// Inserting an element adds its measure to every sum that it belongs to,
/// and changes no other sum.
pub proof fn inserted_sums<T>(
    s: Seq<T>,
    x: T,
    before: spec_fn(T, T) -> bool,
    p: spec_fn(T) -> bool,
    f: spec_fn(T) -> int,
)
    ensures
        sum_where(inserted(s, x, before), p, f) == sum_where(s, p, f) + if p(x) {
            f(x)
        } else {
            0
        },
    decreases s.len(),
{
    if s.len() > 0 && before(x, s.last()) {
        let t = s.drop_last();
        inserted_sums(t, x, before, p, f);
        assert(inserted(t, x, before).push(s.last()).drop_last() =~= inserted(t, x, before));
    } else {
        assert(s.push(x).drop_last() =~= s);
    }
}

/// Sorting changes no sum.
pub proof fn sorted_sums<T>(
    s: Seq<T>,
    before: spec_fn(T, T) -> bool,
    p: spec_fn(T) -> bool,
    f: spec_fn(T) -> int,
)
    ensures
        sum_where(stable_sorted(s, before), p, f) == sum_where(s, p, f),
    decreases s.len(),
{
    if s.len() > 0 {
        sorted_sums(s.drop_last(), before, p, f);
        inserted_sums(stable_sorted(s.drop_last(), before), s.last(), before, p, f);
    }
}

/// The order of keys is one in which rows can be sorted.
pub proof fn keys_can_be_sorted(descending: bool)
    ensures
        is_sorting_order(|a: SortKeyView, b: SortKeyView| goes_before(a, b, descending)),
{
    let before = |a: SortKeyView, b: SortKeyView| goes_before(a, b, descending);
    assert forall|a: SortKeyView, b: SortKeyView| #[trigger] before(a, b) implies !before(b, a) by {
        text_lt_asymmetric(a.text, b.text);
    }
    assert forall|a: SortKeyView, b: SortKeyView, c: SortKeyView| #[trigger]
        before(a, b) && #[trigger] before(b, c) implies before(a, c) by {
        if descending {
            if c.rank == b.rank && b.rank == a.rank {
                text_lt_transitive(c.text, b.text, a.text);
            }
        } else {
            if c.rank == b.rank && b.rank == a.rank {
                text_lt_transitive(a.text, b.text, c.text);
            }
        }
    }
    assert forall|a: SortKeyView, b: SortKeyView, c: SortKeyView|
        !#[trigger] before(a, b) && !#[trigger] before(b, c) implies !before(a, c) by {
        if a.rank == b.rank && b.rank == c.rank {
            text_lt_total(a.text, b.text);
            text_lt_total(b.text, c.text);
            if descending {
                if text_lt(c.text, a.text) {
                    if a.text == b.text {
                    } else if b.text == c.text {
                    } else {
                        text_lt_transitive(c.text, a.text, b.text);
                        text_lt_asymmetric(c.text, b.text);
                    }
                }
            } else {
                if text_lt(a.text, c.text) {
                    if a.text == b.text {
                    } else if b.text == c.text {
                    } else {
                        text_lt_transitive(b.text, a.text, c.text);
                        text_lt_asymmetric(b.text, c.text);
                    }
                }
            }
        }
    }
}

/// A listing of rows is in the order of its type: no row goes strictly
/// before a row in front of it, and the listing holds the same rows as the
/// sequence it was made of.
pub proof fn listing_is_sorted<T: Sortable>(rows: Seq<T::V>)
    ensures
        in_order(stable_sorted(rows, row_order::<T>()), row_order::<T>()),
        stable_sorted(rows, row_order::<T>()).len() == rows.len(),
        forall|p: spec_fn(T::V) -> bool|
            #[trigger] count_where(stable_sorted(rows, row_order::<T>()), p) == count_where(rows, p),
{
    let before = row_order::<T>();
    keys_can_be_sorted(T::descending());
    let by_key = |a: SortKeyView, b: SortKeyView| goes_before(a, b, T::descending());
    assert(is_sorting_order(before)) by {
        assert forall|a: T::V, b: T::V| #[trigger] before(a, b) implies !before(b, a) by {
            assert(by_key(T::key_of(a), T::key_of(b)));
        }
        assert forall|a: T::V, b: T::V, c: T::V| #[trigger]
            before(a, b) && #[trigger] before(b, c) implies before(a, c) by {
            assert(by_key(T::key_of(a), T::key_of(b)) && by_key(T::key_of(b), T::key_of(c)));
        }
        assert forall|a: T::V, b: T::V, c: T::V|
            !#[trigger] before(a, b) && !#[trigger] before(b, c) implies !before(a, c) by {
            assert(!by_key(T::key_of(a), T::key_of(b)) && !by_key(T::key_of(b), T::key_of(c)));
        }
    }
    sorted_in_order(rows, before);
    sorted_len(rows, before);
    assert forall|p: spec_fn(T::V) -> bool|
        #[trigger] count_where(stable_sorted(rows, before), p) == count_where(rows, p) by {
        sorted_counts(rows, before, p);
    }
}

/// A row of which copies can be made.
pub trait Row: View + Sized {
    /// A copy of this row.
    fn copy_row(&self) -> (r: Self)
        ensures
            r@ == self@,
    ;
}

/// A row that has a place in a sorted listing.
pub trait Sortable: Row {
    /// The key that a row is ordered by.
    spec fn key_of(v: Self::V) -> SortKeyView;

    /// Whether rows with larger keys come first.
    spec fn descending() -> bool;

    /// The key that this row is ordered by.
    fn sort_key(&self) -> (k: SortKey)
        ensures
            k@ == Self::key_of(self@),
    ;

    /// Whether rows with larger keys come first.
    fn larger_first() -> (d: bool)
        ensures
            d == Self::descending(),
    ;
}

/// The views of a sequence of rows.
pub open spec fn views_of<T: View>(rows: Seq<T>) -> Seq<T::V> {
    rows.map_values(|r: T| r@)
}

/// The order in which rows of one type are listed.
pub open spec fn row_order<T: Sortable>() -> spec_fn(T::V, T::V) -> bool {
    |a: T::V, b: T::V| goes_before(T::key_of(a), T::key_of(b), T::descending())
}

/// Whether key `a` goes strictly before key `b`.
pub fn precedes(a: &SortKey, b: &SortKey, descending: bool) -> (r: bool)
    ensures
        r == goes_before(a@, b@, descending),
{
    if descending {
        b.rank < a.rank || (b.rank == a.rank && text_before(&b.text, &a.text))
    } else {
        a.rank < b.rank || (a.rank == b.rank && text_before(&a.text, &b.text))
    }
}

/// The positions of `keys` in sorted order: the position of the key that
/// goes first, then of the next, and so on; keys of which neither goes before
/// the other stay in the order of their positions.
pub fn sorted_positions(keys: &Vec<SortKey>, descending: bool) -> (order: Vec<usize>)
    ensures
        as_ints(order@) == stable_sorted(
            positions(keys@.len()),
            position_order(key_views(keys@), descending),
        ),
        order@.len() == keys@.len(),
        forall|k: int| 0 <= k < order@.len() ==> #[trigger] order@[k] < keys@.len(),
{
    let ghost kv = key_views(keys@);
    let ghost before = position_order(kv, descending);
    let mut order: Vec<usize> = Vec::new();
    let mut i: usize = 0;
    assert(as_ints(order@) =~= stable_sorted(positions(0), before));
    while i < keys.len()
        invariant
            i <= keys.len(),
            kv == key_views(keys@),
            before == position_order(kv, descending),
            as_ints(order@) == stable_sorted(positions(i as nat), before),
            order@.len() == i,
            forall|k: int| 0 <= k < order@.len() ==> #[trigger] order@[k] < i,
        decreases keys.len() - i,
    {
        let mut p: usize = order.len();
        while p > 0 && precedes(&keys[i], &keys[order[p - 1]], descending)
            invariant
                p <= order@.len(),
                i < keys.len(),
                kv == key_views(keys@),
                before == position_order(kv, descending),
                forall|k: int| 0 <= k < order@.len() ==> #[trigger] order@[k] < i,
                forall|k: int|
                    p <= k < order@.len() ==> before(i as int, #[trigger] as_ints(order@)[k]),
            decreases p,
        {
            p -= 1;
        }
        proof {
            let s = as_ints(order@);
            if p > 0 {
                assert(s[p - 1] == order@[p - 1] as int);
                assert(!before(i as int, s[p - 1]));
            }
            inserted_at(s, i as int, before, p as int);
            assert(positions((i + 1) as nat).drop_last() =~= positions(i as nat));
            assert(positions((i + 1) as nat).last() == i as int);
            assert(as_ints(order@.insert(p as int, i)) =~= s.insert(p as int, i as int));
        }
        order.insert(p, i);
        i += 1;
    }
    order
}

/// The rows in the order in which their type is listed; rows with equal keys
/// keep the order they come in.
pub fn sorted_rows<T: Sortable>(rows: &Vec<T>) -> (r: Vec<T>)
    ensures
        views_of(r@) == stable_sorted(views_of(rows@), row_order::<T>()),
{
    let mut keys: Vec<SortKey> = Vec::new();
    let mut i: usize = 0;
    while i < rows.len()
        invariant
            i <= rows.len(),
            keys@.len() == i,
            forall|k: int| 0 <= k < i ==> (#[trigger] keys@[k])@ == T::key_of(rows@[k]@),
        decreases rows.len() - i,
    {
        keys.push(rows[i].sort_key());
        i += 1;
    }
    let descending = T::larger_first();
    let order = sorted_positions(&keys, descending);
    let ghost kv = key_views(keys@);
    let ghost by_position = position_order(kv, descending);
    let ghost rv = views_of(rows@);
    let ghost pick = |p: int| rv[p];
    let ghost places = positions(rows@.len());
    proof {
        assert forall|a: int, b: int|
            0 <= a < places.len() && 0 <= b < places.len() implies by_position(
            #[trigger] places[a],
            #[trigger] places[b],
        ) == row_order::<T>()(pick(places[a]), pick(places[b])) by {
            assert(kv[a] == T::key_of(rv[a]));
            assert(kv[b] == T::key_of(rv[b]));
        }
        sorted_map(places, pick, by_position, row_order::<T>());
        assert(places.map_values(pick) =~= rv);
        sorted_len(places, by_position);
    }
    let mut r: Vec<T> = Vec::new();
    let mut k: usize = 0;
    while k < order.len()
        invariant
            k <= order.len(),
            order@.len() == rows@.len(),
            forall|j: int| 0 <= j < order@.len() ==> #[trigger] order@[j] < rows@.len(),
            r@.len() == k,
            forall|j: int| 0 <= j < k ==> (#[trigger] r@[j])@ == rows@[order@[j] as int]@,
        decreases order.len() - k,
    {
        r.push(rows[order[k]].copy_row());
        k += 1;
    }
    assert(views_of(r@) =~= as_ints(order@).map_values(pick));
    r
}

} // verus!
