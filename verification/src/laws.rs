//! What holds of the ledger across its operations: transfers neither make
//! nor lose money, legs never stand alone, balances follow the entries, and
//! the default container stays.

use crate::amount::amount_value;
use crate::calendar::{bounds_of, month_exists, month_text, reading, timestamp_text, Timestamp};
use crate::chronology::{is_plain, month_prefix_is_month_bounds};
use crate::containers::{default_container_is, delete_container_keeps_wf};
use crate::csv_io::{cell, imported, record_outcome, row_number, Columns, RowOutcome};
use crate::entries::{
    add_transfer_keeps_wf, delete_transaction_keeps_wf, record_keeps_wf, transfer_of_row,
};
use crate::error::{LedgerError, TransferFault};
use crate::ledger::{
    amount_of, container_id, container_is, container_is_not, entry_id, entry_in, entry_is, entry_on,
    leg_of, legs_pair, max_transfer_bounds, not_leg_of, plain_in, plain_in_month, Ledger,
};
use crate::model::{AccountView, Container, Transaction, TransactionView};
use crate::order::{listing_is_sorted, row_order, sorted_member, stable_sorted};
use crate::select::magnitude_of;
use crate::seqs::{
    ascending_distinct, count_has, count_is_zero, count_keep_none, count_other_witness, count_where,
    count_witness, keep_where, kept_count, kept_is_member, sum_bounds, sum_of_kept, sum_same,
    sum_where,
};
use crate::text::{text_lt, trimmed};
use crate::totals::{lines_cover_rows, lines_sum, typed_flow, Span};
use vstd::prelude::*;

verus! {

/// A transfer adds exactly two entries behind the ones that were there: two
/// legs with one transfer identifier, opposite amounts and different accounts.
pub proof fn transfer_adds_two_legs(
    a: Ledger,
    container: i64,
    from: i64,
    to: i64,
    amount: i64,
    description: Seq<char>,
    date: Seq<char>,
)
    requires
        a.wf(),
        a.add_transfer(container, from, to, amount, description, date) is Ok,
    ensures
        ({
            let b = a.add_transfer(container, from, to, amount, description, date)->Ok_0;
            let n = a.transactions.len() as int;
            let debit = b.transactions[n];
            let credit = b.transactions[n + 1];
            &&& b.wf()
            &&& b.transactions.len() == n + 2
            &&& b.transactions.take(n) == a.transactions
            &&& debit.amount + credit.amount == 0
            &&& debit.amount == -amount
            &&& debit.account_id == from
            &&& credit.account_id == to
            &&& debit.account_id != credit.account_id
            &&& debit.transfer_id == credit.transfer_id
            &&& debit.transfer_id != 0
            &&& a.leg_count(debit.transfer_id) == 0
            &&& b.leg_count(debit.transfer_id) == 2
            &&& legs_pair(debit, credit)
        }),
{
    let b = a.add_transfer(container, from, to, amount, description, date)->Ok_0;
    let t = a.transactions;
    let fresh = a.next_transfer_id() as i64;
    add_transfer_keeps_wf(a, container, from, to, amount, description, date);
    crate::ledger::max_transfer_nonneg(t);
    assert(b.transactions.take(t.len() as int) =~= t);
    assert forall|i: int| 0 <= i < t.len() implies !leg_of(fresh)(#[trigger] t[i]) by {
        max_transfer_bounds(t, i);
    }
    count_is_zero(t, leg_of(fresh));
    count_has(b.transactions, leg_of(fresh), t.len() as int);
}

/// A transfer leaves the flow of every container as it was.
pub proof fn transfer_keeps_flow(
    a: Ledger,
    container: i64,
    from: i64,
    to: i64,
    amount: i64,
    description: Seq<char>,
    date: Seq<char>,
    watched: i64,
)
    requires
        a.wf(),
        a.add_transfer(container, from, to, amount, description, date) is Ok,
    ensures
        a.add_transfer(container, from, to, amount, description, date)->Ok_0.all_time_balance(
            watched,
        ) == a.all_time_balance(watched),
{
    let b = a.add_transfer(container, from, to, amount, description, date)->Ok_0;
    let t = a.transactions;
    let debit = a.debit_leg(container, from, to, amount, description, date);
    let credit = a.credit_leg(container, from, to, amount, description, date);
    let mid = t.push(debit);
    crate::ledger::max_transfer_nonneg(t);
    assert(b.transactions.drop_last() =~= mid);
    assert(mid.drop_last() =~= t);
    assert(b.transactions.last() == credit && mid.last() == debit);
    assert(sum_where(mid, plain_in(watched), amount_of()) == sum_where(
        t,
        plain_in(watched),
        amount_of(),
    ));
}

/// A transfer takes its amount from the balance of the source account, adds
/// it to the balance of the destination account, and leaves every other
/// balance as it was.
pub proof fn transfer_moves_balance(
    a: Ledger,
    container: i64,
    from: i64,
    to: i64,
    amount: i64,
    description: Seq<char>,
    date: Seq<char>,
    account: AccountView,
)
    requires
        a.wf(),
        a.add_transfer(container, from, to, amount, description, date) is Ok,
    ensures
        a.add_transfer(container, from, to, amount, description, date)->Ok_0.balance_of(account)
            == a.balance_of(account) + (if account.id == to {
            amount as int
        } else {
            0
        }) - (if account.id == from {
            amount as int
        } else {
            0
        }),
{
    let b = a.add_transfer(container, from, to, amount, description, date)->Ok_0;
    let t = a.transactions;
    let debit = a.debit_leg(container, from, to, amount, description, date);
    let credit = a.credit_leg(container, from, to, amount, description, date);
    let mid = t.push(debit);
    let on = entry_on(account.id);
    assert(b.transactions.drop_last() =~= mid);
    assert(mid.drop_last() =~= t);
    assert(b.transactions.last() == credit && mid.last() == debit);
    assert(sum_where(mid, on, amount_of()) == sum_where(t, on, amount_of()) + if on(debit) {
        amount_of()(debit)
    } else {
        0
    });
    assert(sum_where(b.transactions, on, amount_of()) == sum_where(mid, on, amount_of()) + if on(
        credit,
    ) {
        amount_of()(credit)
    } else {
        0
    });
}

/// A plain entry changes the balance of the account it refers to by its
/// amount, and no other balance.
pub proof fn entry_moves_balance(
    a: Ledger,
    amount: i64,
    description: Seq<char>,
    category: Seq<char>,
    date: Seq<char>,
    container: i64,
    on_account: i64,
    account: AccountView,
)
    requires
        a.record(amount, description, category, date, container, on_account) is Ok,
    ensures
        a.record(amount, description, category, date, container, on_account)->Ok_0.balance_of(
            account,
        ) == a.balance_of(account) + (if account.id == on_account {
            amount as int
        } else {
            0
        }),
{
    let b = a.record(amount, description, category, date, container, on_account)->Ok_0;
    assert(b.transactions.drop_last() =~= a.transactions);
}

/// A transfer between an account and itself, or of an amount that is not
/// positive, fails as a validation error, whatever the ledger holds.
pub proof fn bad_transfers_fail(
    a: Ledger,
    container: i64,
    from: i64,
    to: i64,
    amount: i64,
    description: Seq<char>,
    date: Seq<char>,
)
    ensures
        from == to ==> a.add_transfer(container, from, to, amount, description, date) == Err::<
            Ledger,
            LedgerError,
        >(LedgerError::InvalidTransfer(TransferFault::SameAccount)),
        from != to && amount <= 0 ==> a.add_transfer(
            container,
            from,
            to,
            amount,
            description,
            date,
        ) == Err::<Ledger, LedgerError>(
            LedgerError::InvalidTransfer(TransferFault::NonPositiveAmount),
        ),
        from == to || amount <= 0 ==> a.add_transfer(
            container,
            from,
            to,
            amount,
            description,
            date,
        ) is Err && a.add_transfer(
            container,
            from,
            to,
            amount,
            description,
            date,
        )->Err_0.is_validation(),
{
}

/// No leg stands alone: every leg of a transfer has exactly one partner, the
/// other leg of the same transfer.
pub proof fn leg_has_partner(a: Ledger, i: int) -> (j: int)
    requires
        a.wf(),
        0 <= i < a.transactions.len(),
        a.transactions[i].transfer_id != 0,
    ensures
        0 <= j < a.transactions.len(),
        j != i,
        a.transactions[j].transfer_id == a.transactions[i].transfer_id,
        legs_pair(a.transactions[i], a.transactions[j]),
        a.leg_count(a.transactions[i].transfer_id) == 2,
{
    let t = a.transactions;
    let transfer = t[i].transfer_id;
    count_has(t, leg_of(transfer), i);
    assert(a.leg_count(transfer) == 0 || a.leg_count(transfer) == 2);
    let j = count_other_witness(t, leg_of(transfer), i);
    if t[i].id == t[j].id {
        ascending_distinct(t, entry_id(), i, j);
    }
    j
}

/// Deleting either leg of a transfer removes both legs and nothing else, and
/// leaves no leg without its partner.
pub proof fn deleting_a_leg_removes_both(a: Ledger, id: i64)
    requires
        a.wf(),
        a.delete_transaction(id) is Ok,
        a.transfer_of(id) != 0,
    ensures
        ({
            let b = a.delete_transaction(id)->Ok_0;
            let transfer = a.transfer_of(id);
            &&& b.wf()
            &&& a.leg_count(transfer) == 2
            &&& b.leg_count(transfer) == 0
            &&& b.transactions == keep_where(a.transactions, not_leg_of(transfer))
            &&& forall|k: int|
                0 <= k < b.transactions.len() ==> (#[trigger] b.transactions[k]).transfer_id
                    != transfer
            &&& count_where(b.transactions, entry_is(id)) == 0
        }),
{
    let b = a.delete_transaction(id)->Ok_0;
    let t = a.transactions;
    let transfer = a.transfer_of(id);
    delete_transaction_keeps_wf(a, id);
    let place = count_witness(t, entry_is(id));
    transfer_of_row(a, place);
    let partner = leg_has_partner(a, place);
    count_keep_none(t, not_leg_of(transfer), leg_of(transfer));
    count_is_zero(b.transactions, leg_of(transfer));
    assert forall|k: int| 0 <= k < b.transactions.len() implies !entry_is(id)(
        #[trigger] b.transactions[k],
    ) by {
        let m = kept_is_member(t, not_leg_of(transfer), k);
        if t[m].id == id {
            ascending_distinct(t, entry_id(), m, place);
        }
    }
    count_is_zero(b.transactions, entry_is(id));
}

/// The entries of a container are listed with the latest first: no entry
/// stands behind one with an earlier timestamp, and every listed entry lies in
/// the container.
pub proof fn entries_are_latest_first(a: Ledger, container: i64, limit: Option<i64>)
    ensures
        forall|i: int, j: int|
            #![trigger a.listed_entries(container, limit)[i], a.listed_entries(container, limit)[j]]
            0 <= i < j < a.listed_entries(container, limit).len() ==> !text_lt(
                a.listed_entries(container, limit)[i].date,
                a.listed_entries(container, limit)[j].date,
            ),
        forall|k: int|
            0 <= k < a.listed_entries(container, limit).len() ==> (#[trigger] a.listed_entries(
                container,
                limit,
            )[k]).container_id == container,
        a.listed_entries(container, None).len() == count_where(
            a.transactions,
            entry_in(container),
        ),
{
    let kept = keep_where(a.transactions, entry_in(container));
    let sorted = stable_sorted(kept, row_order::<Transaction>());
    let listed = a.listed_entries(container, limit);
    listing_is_sorted::<Transaction>(kept);
    assert forall|i: int, j: int| #![trigger listed[i], listed[j]] 0 <= i < j < listed.len() implies !text_lt(
        listed[i].date,
        listed[j].date,
    ) by {
        assert(listed[i] == sorted[i] && listed[j] == sorted[j]);
        assert(!row_order::<Transaction>()(sorted[j], sorted[i]));
    }
    assert forall|k: int| 0 <= k < listed.len() implies (#[trigger] listed[k]).container_id
        == container by {
        assert(listed[k] == sorted[k]);
        sorted_member(kept, row_order::<Transaction>(), k);
        let m = choose|m: int| 0 <= m < kept.len() && #[trigger] kept[m] == sorted[k];
        let w = kept_is_member(a.transactions, entry_in(container), m);
    }
    kept_count(a.transactions, entry_in(container));
}

/// Whether `date` is a plain timestamp as the store writes it.
pub open spec fn is_written_moment(date: Seq<char>) -> bool {
    exists|ts: Timestamp| is_plain(ts) && date == #[trigger] timestamp_text(ts)
}

/// The entries of container `container` that are no legs of a transfer and
/// whose timestamp lies from `start` to `end`.
pub open spec fn plain_between(container: i64, start: Seq<char>, end: Seq<char>) -> spec_fn(
    TransactionView,
) -> bool {
    |t: TransactionView|
        t.container_id == container && t.transfer_id == 0 && !text_lt(t.date, start) && !text_lt(
            end,
            t.date,
        )
}

/// The flow of a month is the flow between the bounds of the month: where
/// every timestamp is a plain one, summing the entries whose timestamp begins
/// with the month is summing the entries from its first to its last second.
pub proof fn month_flow_is_flow_between_bounds(a: Ledger, container: i64, year: int, month: int)
    requires
        forall|i: int|
            0 <= i < a.transactions.len() ==> is_written_moment(
                (#[trigger] a.transactions[i]).date,
            ),
        0 <= year <= 9999,
        month_exists(year, month),
    ensures
        a.month_balance(container, month_text(year, month)) == sum_where(
            a.transactions,
            plain_between(container, bounds_of(year, month).0, bounds_of(year, month).1),
            amount_of(),
        ),
{
    let t = a.transactions;
    let by_prefix = plain_in_month(container, month_text(year, month));
    let by_bounds = plain_between(container, bounds_of(year, month).0, bounds_of(year, month).1);
    assert forall|i: int| 0 <= i < t.len() implies by_prefix(#[trigger] t[i]) == by_bounds(
        t[i],
    ) by {
        assert(is_written_moment(t[i].date));
        let ts = choose|ts: Timestamp| is_plain(ts) && t[i].date == #[trigger] timestamp_text(ts);
        month_prefix_is_month_bounds(ts, year, month);
    }
    sum_same(t, by_prefix, by_bounds, amount_of());
}

/// Deleting the default container fails, whatever else the ledger holds.
pub proof fn default_container_stays(a: Ledger, i: int)
    requires
        a.wf(),
        0 <= i < a.containers.len(),
        a.containers[i].is_default,
    ensures
        a.delete_container(a.containers[i].id) == Err::<Ledger, LedgerError>(
            LedgerError::ProtectedEntity,
        ),
{
    let id = a.containers[i].id;
    count_has(a.containers, container_is(id), i);
    count_has(a.containers, default_container_is(id), i);
}

/// Deleting a container that is not the default one succeeds and removes it
/// from the ledger and from the listing of containers.
pub proof fn other_container_goes(a: Ledger, i: int)
    requires
        a.wf(),
        0 <= i < a.containers.len(),
        !a.containers[i].is_default,
    ensures
        a.delete_container(a.containers[i].id) is Ok,
        ({
            let b = a.delete_container(a.containers[i].id)->Ok_0;
            &&& b.wf()
            &&& !b.has_container(a.containers[i].id)
            &&& forall|k: int|
                0 <= k < b.listed_containers().len() ==> (#[trigger] b.listed_containers()[k]).id
                    != a.containers[i].id
        }),
{
    let id = a.containers[i].id;
    let c = a.containers;
    count_has(c, container_is(id), i);
    assert forall|k: int| 0 <= k < c.len() implies !default_container_is(id)(#[trigger] c[k]) by {
        if c[k].id == id {
            ascending_distinct(c, container_id(), k, i);
        }
    }
    count_is_zero(c, default_container_is(id));
    delete_container_keeps_wf(a, id);
    let b = a.delete_container(id)->Ok_0;
    count_keep_none(c, container_is_not(id), container_is(id));
    assert forall|k: int| 0 <= k < b.listed_containers().len() implies (
    #[trigger] b.listed_containers()[k]).id != id by {
        sorted_member(b.containers, row_order::<Container>(), k);
        let j = choose|j: int|
            0 <= j < b.containers.len() && #[trigger] b.containers[j] == b.listed_containers()[k];
        let m = kept_is_member(c, container_is_not(id), j);
    }
}

/// An import only adds: every record is either stored or refused with a
/// message, the entries that were there stay as they were with the new ones
/// behind them, each new entry is a plain entry of the container without an
/// account, and nothing else in the ledger changes.
pub proof fn import_only_adds(
    start: Ledger,
    container: i64,
    columns: Columns,
    skip_header: bool,
    records: Seq<Result<Seq<Seq<char>>, Seq<char>>>,
)
    requires
        start.wf(),
    ensures
        ({
            let p = imported(start, container, columns, skip_header, records);
            let n = start.transactions.len() as int;
            &&& p.ledger.wf()
            &&& p.stored + p.errors.len() == records.len()
            &&& p.ledger.transactions.len() == n + p.stored
            &&& p.ledger.transactions.take(n) == start.transactions
            &&& p.ledger.containers == start.containers
            &&& p.ledger.accounts == start.accounts
            &&& p.ledger.categories == start.categories
            &&& forall|k: int|
                n <= k < p.ledger.transactions.len() ==> {
                    &&& (#[trigger] p.ledger.transactions[k]).container_id == container
                    &&& p.ledger.transactions[k].account_id == 0
                    &&& p.ledger.transactions[k].transfer_id == 0
                }
        }),
    decreases records.len(),
{
    let n = start.transactions.len() as int;
    let p = imported(start, container, columns, skip_header, records);
    if records.len() == 0 {
        assert(p.ledger.transactions.take(n) =~= start.transactions);
    } else {
        let before = imported(start, container, columns, skip_header, records.drop_last());
        import_only_adds(start, container, columns, skip_header, records.drop_last());
        let outcome = record_outcome(
            before.ledger,
            row_number(records.len() - 1, skip_header),
            container,
            columns,
            records.last(),
        );
        match outcome {
            RowOutcome::Stored(after) => {
                let fields = records.last()->Ok_0;
                let amount = trimmed(cell(fields, columns.amount as int, ""@));
                let description = trimmed(cell(fields, columns.description as int, "Imported"@));
                let category = trimmed(cell(fields, columns.category as int, "Other"@));
                let date = trimmed(cell(fields, columns.date as int, ""@));
                let cents = amount_value(amount)->0 as i64;
                let stamp = timestamp_text(reading(date)->0);
                assert(before.ledger.record(cents, description, category, stamp, container, 0)
                    == Ok::<Ledger, LedgerError>(after));
                record_keeps_wf(before.ledger, cents, description, category, stamp, container, 0);
                assert(after.transactions.take(n) =~= before.ledger.transactions.take(n));
                assert forall|k: int| n <= k < after.transactions.len() implies {
                    &&& (#[trigger] after.transactions[k]).container_id == container
                    &&& after.transactions[k].account_id == 0
                    &&& after.transactions[k].transfer_id == 0
                } by {
                    if k < before.ledger.transactions.len() {
                        assert(after.transactions[k] == before.ledger.transactions[k]);
                    }
                }
            },
            RowOutcome::Refused(message) => {},
        }
    }
}

/// In every profit-and-loss report the net income is the total income less
/// the total expense, neither total is negative, and each total is the sum of
/// its lines.
pub proof fn report_balances(a: Ledger, container: i64, month: Seq<char>)
    requires
        a.profit_and_loss(container, month) is Ok,
    ensures
        ({
            let r = a.profit_and_loss(container, month)->Ok_0;
            &&& r.net_income == r.total_income - r.total_expense
            &&& r.total_income >= 0
            &&& r.total_expense >= 0
            &&& r.total_income == lines_sum(r.income)
            &&& r.total_expense == lines_sum(r.expense)
        }),
{
    let bounds = crate::calendar::month_bounds(month)->Ok_0;
    let span = Span::Between(bounds.0, bounds.1);
    let t = a.transactions;
    sum_bounds(
        t,
        typed_flow(a.categories, container, "income"@, span),
        magnitude_of(),
        0,
        0x8000_0000_0000_0000,
    );
    sum_bounds(
        t,
        typed_flow(a.categories, container, "expense"@, span),
        magnitude_of(),
        0,
        0x8000_0000_0000_0000,
    );
    assert(t.len() * 0 == 0);
    lines_cover_rows(a.flow_rows(container, "income"@, span));
    lines_cover_rows(a.flow_rows(container, "expense"@, span));
    sum_of_kept(t, typed_flow(a.categories, container, "income"@, span), magnitude_of());
    sum_of_kept(t, typed_flow(a.categories, container, "expense"@, span), magnitude_of());
}

} // verus!
