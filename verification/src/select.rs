//! Selecting rows: predicates that can be run, and the loops that keep, find
//! and total the rows that a predicate selects.

use crate::ledger::amount_of;
use crate::model::{Transaction, TransactionView};
use crate::order::{views_of, Row};
use crate::seqs::{count_is_zero, count_where, keep_where, sum_where};
use vstd::prelude::*;

verus! {

/// A predicate on rows that can be run.
pub trait Selector<T: View> {
    /// The rows that are selected.
    spec fn selects(&self) -> spec_fn(T::V) -> bool;

    /// Whether `row` is selected.
    fn accepts(&self, row: &T) -> (r: bool)
        ensures
            r == self.selects()(row@),
    ;
}

/// The magnitude of an entry's amount.
pub open spec fn magnitude_of() -> spec_fn(TransactionView) -> int {
    |t: TransactionView|
        if t.amount < 0 {
            -(t.amount as int)
        } else {
            t.amount as int
        }
}

/// Copies of the rows that `by` selects, in their order.
pub fn kept_rows<T: Row, S: Selector<T>>(rows: &Vec<T>, by: &S) -> (r: Vec<T>)
    ensures
        views_of(r@) == keep_where(views_of(rows@), by.selects()),
{
    let ghost all = views_of(rows@);
    let mut r: Vec<T> = Vec::new();
    let mut i: usize = 0;
    assert(views_of(r@) =~= keep_where(all.take(0), by.selects()));
    while i < rows.len()
        invariant
            i <= rows.len(),
            all == views_of(rows@),
            views_of(r@) == keep_where(all.take(i as int), by.selects()),
        decreases rows.len() - i,
    {
        assert(all.take(i + 1).drop_last() =~= all.take(i as int));
        assert(all.take(i + 1).last() == rows@[i as int]@);
        if by.accepts(&rows[i]) {
            let ghost before = views_of(r@);
            let copy = rows[i].copy_row();
            r.push(copy);
            assert(views_of(r@) =~= before.push(copy@));
        }
        i += 1;
    }
    assert(all.take(rows@.len() as int) =~= all);
    r
}

/// The place of the first row that `by` selects.
pub fn first_place<T: View, S: Selector<T>>(rows: &Vec<T>, by: &S) -> (r: Option<usize>)
    ensures
        match r {
            Some(i) => i < rows@.len() && by.selects()(rows@[i as int]@) && count_where(
                views_of(rows@),
                by.selects(),
            ) >= 1 && forall|k: int| 0 <= k < i ==> !by.selects()(#[trigger] rows@[k]@),
            None => count_where(views_of(rows@), by.selects()) == 0,
        },
{
    let ghost all = views_of(rows@);
    let mut i: usize = 0;
    while i < rows.len()
        invariant
            i <= rows.len(),
            all == views_of(rows@),
            forall|k: int| 0 <= k < i ==> !by.selects()(#[trigger] all[k]),
        decreases rows.len() - i,
    {
        if by.accepts(&rows[i]) {
            proof {
                assert(all[i as int] == rows@[i as int]@);
                count_is_zero(all, by.selects());
                assert forall|k: int| 0 <= k < i implies !by.selects()(#[trigger] rows@[k]@) by {
                    assert(all[k] == rows@[k]@);
                }
            }
            return Some(i);
        }
        assert(all[i as int] == rows@[i as int]@);
        i += 1;
    }
    proof {
        count_is_zero(all, by.selects());
    }
    None
}

/// How many rows `by` selects.
pub fn count_rows<T: View, S: Selector<T>>(rows: &Vec<T>, by: &S) -> (n: usize)
    ensures
        n == count_where(views_of(rows@), by.selects()),
{
    let ghost all = views_of(rows@);
    let mut n: usize = 0;
    let mut i: usize = 0;
    while i < rows.len()
        invariant
            i <= rows.len(),
            all == views_of(rows@),
            n == count_where(all.take(i as int), by.selects()),
            n <= i,
        decreases rows.len() - i,
    {
        assert(all.take(i + 1).drop_last() =~= all.take(i as int));
        assert(all.take(i + 1).last() == rows@[i as int]@);
        if by.accepts(&rows[i]) {
            n += 1;
        }
        i += 1;
    }
    assert(all.take(rows@.len() as int) =~= all);
    n
}

/// The sum of the amounts of the entries that `by` selects.
pub fn total_amount<S: Selector<Transaction>>(rows: &Vec<Transaction>, by: &S) -> (total: i128)
    ensures
        total == sum_where(views_of(rows@), by.selects(), amount_of()),
        -(rows@.len() * 0x8000_0000_0000_0000) <= total <= rows@.len() * 0x8000_0000_0000_0000,
{
    let ghost all = views_of(rows@);
    let mut total: i128 = 0;
    let mut i: usize = 0;
    while i < rows.len()
        invariant
            i <= rows.len(),
            all == views_of(rows@),
            total == sum_where(all.take(i as int), by.selects(), amount_of()),
            -(i * 0x8000_0000_0000_0000) <= total <= i * 0x8000_0000_0000_0000,
        decreases rows.len() - i,
    {
        assert(all.take(i + 1).drop_last() =~= all.take(i as int));
        assert(all.take(i + 1).last() == rows@[i as int]@);
        if by.accepts(&rows[i]) {
            total = total + rows[i].amount as i128;
        }
        i += 1;
    }
    assert(all.take(rows@.len() as int) =~= all);
    total
}

/// The sum of the magnitudes of the amounts of the entries that `by` selects.
pub fn total_magnitude<S: Selector<Transaction>>(rows: &Vec<Transaction>, by: &S) -> (total:
    i128)
    ensures
        total == sum_where(views_of(rows@), by.selects(), magnitude_of()),
        0 <= total <= rows@.len() * 0x8000_0000_0000_0000,
{
    let ghost all = views_of(rows@);
    let mut total: i128 = 0;
    let mut i: usize = 0;
    while i < rows.len()
        invariant
            i <= rows.len(),
            all == views_of(rows@),
            total == sum_where(all.take(i as int), by.selects(), magnitude_of()),
            0 <= total <= i * 0x8000_0000_0000_0000,
        decreases rows.len() - i,
    {
        assert(all.take(i + 1).drop_last() =~= all.take(i as int));
        assert(all.take(i + 1).last() == rows@[i as int]@);
        if by.accepts(&rows[i]) {
            let amount: i128 = rows[i].amount as i128;
            total = total + if amount < 0 {
                -amount
            } else {
                amount
            };
        }
        i += 1;
    }
    assert(all.take(rows@.len() as int) =~= all);
    total
}

} // verus!
