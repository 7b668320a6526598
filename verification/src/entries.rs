//! Entries: recording, revising, deleting and listing them, and transfers
//! between two accounts.

use crate::calendar::{timestamp_text, Timestamp};
use crate::error::{LedgerError, StorageFault, TransferFault};
use crate::ledger::{
    accounts_carry_over, categories_carry_over, containers_carry_over, entry_id, entry_in,
    entry_in_month, entry_in_on, entry_is, entry_is_not, leg_of, leg_with_id, legs_pair,
    max_transfer_bounds, max_transfer_id, max_transfer_nonneg, not_leg_of, outcome, Ledger,
};
use crate::model::{NewTransaction, Transaction, TransactionView};
use crate::order::{row_order, sorted_rows, stable_sorted, views_of, Row};
use crate::select::{first_place, kept_rows};
use crate::selectors::{ContainerSelector, EntrySelector};
use crate::seqs::{
    ascending, ascending_distinct, count_has, count_is_zero, count_keep_all, count_keep_none,
    count_map, count_where, keep_ascending, keep_where, kept_is_member,
};
use crate::store::Database;
use crate::text::chars_of;
use vstd::prelude::*;

verus! {

/// Gives the entry `id` an amount, a description, a category and an account,
/// and leaves the others as they are.
pub open spec fn revise_entry(
    id: i64,
    amount: i64,
    description: Seq<char>,
    category: Seq<char>,
    account: i64,
) -> spec_fn(TransactionView) -> TransactionView {
    |t: TransactionView|
        if t.id == id {
            TransactionView {
                amount: amount,
                description: description,
                category: category,
                account_id: account,
                ..t
            }
        } else {
            t
        }
}

/// The text given, or `default` where none is given.
pub open spec fn text_or(given: Option<String>, default: Seq<char>) -> Seq<char> {
    match given {
        Some(s) => s@,
        None => default,
    }
}

/// The first `limit` rows of `rows`; all of them where there is no limit,
/// a negative one, or one beyond their number.
pub open spec fn limited<T>(rows: Seq<T>, limit: Option<i64>) -> Seq<T> {
    match limit {
        Some(l) => if 0 <= l < rows.len() {
            rows.take(l as int)
        } else {
            rows
        },
        None => rows,
    }
}

impl Ledger {
    /// The row that a new plain entry gets.
    pub open spec fn plain_entry(
        self,
        amount: i64,
        description: Seq<char>,
        category: Seq<char>,
        date: Seq<char>,
        container: i64,
        account: i64,
    ) -> TransactionView {
        TransactionView {
            id: (self.last_transaction_id + 1) as i64,
            amount: amount,
            description: description,
            category: category,
            date: date,
            container_id: container,
            account_id: account,
            transfer_id: 0,
            transfer_account_id: 0,
        }
    }

    /// The ledger with a new plain entry. It fails where the container does
    /// not exist, or where no identifier is left.
    pub open spec fn record(
        self,
        amount: i64,
        description: Seq<char>,
        category: Seq<char>,
        date: Seq<char>,
        container: i64,
        account: i64,
    ) -> Result<Ledger, LedgerError> {
        if !self.has_container(container) {
            Err(LedgerError::NotFound)
        } else if self.last_transaction_id == i64::MAX {
            Err(LedgerError::Storage(StorageFault::Exhausted))
        } else {
            Ok(
                Ledger {
                    transactions: self.transactions.push(
                        self.plain_entry(amount, description, category, date, container, account),
                    ),
                    last_transaction_id: (self.last_transaction_id + 1) as i64,
                    ..self
                },
            )
        }
    }

    /// The ledger with entry `id` revised. It fails where there is no such
    /// entry, or where it is a leg of a transfer.
    pub open spec fn update_transaction(
        self,
        id: i64,
        amount: i64,
        description: Seq<char>,
        category: Seq<char>,
        account: i64,
    ) -> Result<Ledger, LedgerError> {
        if count_where(self.transactions, entry_is(id)) == 0 {
            Err(LedgerError::NotFound)
        } else if count_where(self.transactions, leg_with_id(id)) >= 1 {
            Err(LedgerError::ImmutableEntity)
        } else {
            Ok(
                Ledger {
                    transactions: self.transactions.map_values(
                        revise_entry(id, amount, description, category, account),
                    ),
                    ..self
                },
            )
        }
    }

    /// The transfer identifier that entry `id` carries.
    pub open spec fn transfer_of(self, id: i64) -> i64 {
        let i = choose|i: int|
            0 <= i < self.transactions.len() && (#[trigger] self.transactions[i]).id == id;
        self.transactions[i].transfer_id
    }

    /// The ledger without entry `id`; where the entry is a leg of a transfer,
    /// without both legs. It fails where there is no such entry.
    pub open spec fn delete_transaction(self, id: i64) -> Result<Ledger, LedgerError> {
        if count_where(self.transactions, entry_is(id)) == 0 {
            Err(LedgerError::NotFound)
        } else if self.transfer_of(id) != 0 {
            Ok(
                Ledger {
                    transactions: keep_where(self.transactions, not_leg_of(self.transfer_of(id))),
                    ..self
                },
            )
        } else {
            Ok(Ledger { transactions: keep_where(self.transactions, entry_is_not(id)), ..self })
        }
    }

    /// The identifier that the next transfer gets: one more than the largest
    /// in the whole store, 1 where there is none.
    pub open spec fn next_transfer_id(self) -> int {
        max_transfer_id(self.transactions) + 1
    }

    /// The debit leg of a new transfer: the amount leaves `from`.
    pub open spec fn debit_leg(
        self,
        container: i64,
        from: i64,
        to: i64,
        amount: i64,
        description: Seq<char>,
        date: Seq<char>,
    ) -> TransactionView {
        TransactionView {
            id: (self.last_transaction_id + 1) as i64,
            amount: (-amount) as i64,
            description: description,
            category: "Transfer"@,
            date: date,
            container_id: container,
            account_id: from,
            transfer_id: self.next_transfer_id() as i64,
            transfer_account_id: to,
        }
    }

    /// The credit leg of a new transfer: the amount reaches `to`.
    pub open spec fn credit_leg(
        self,
        container: i64,
        from: i64,
        to: i64,
        amount: i64,
        description: Seq<char>,
        date: Seq<char>,
    ) -> TransactionView {
        TransactionView {
            id: (self.last_transaction_id + 2) as i64,
            amount: amount,
            description: description,
            category: "Transfer"@,
            date: date,
            container_id: container,
            account_id: to,
            transfer_id: self.next_transfer_id() as i64,
            transfer_account_id: from,
        }
    }

    /// The ledger with a new transfer of `amount` from `from` to `to`: its two
    /// legs, and nothing else. It fails where the accounts are the same, where
    /// the amount is not positive, where the container does not exist, or
    /// where no identifier is left.
    pub open spec fn add_transfer(
        self,
        container: i64,
        from: i64,
        to: i64,
        amount: i64,
        description: Seq<char>,
        date: Seq<char>,
    ) -> Result<Ledger, LedgerError> {
        if from == to {
            Err(LedgerError::InvalidTransfer(TransferFault::SameAccount))
        } else if amount <= 0 {
            Err(LedgerError::InvalidTransfer(TransferFault::NonPositiveAmount))
        } else if !self.has_container(container) {
            Err(LedgerError::NotFound)
        } else if max_transfer_id(self.transactions) >= i64::MAX || self.last_transaction_id
            > i64::MAX - 2 {
            Err(LedgerError::Storage(StorageFault::Exhausted))
        } else {
            Ok(
                Ledger {
                    transactions: self.transactions.push(
                        self.debit_leg(container, from, to, amount, description, date),
                    ).push(self.credit_leg(container, from, to, amount, description, date)),
                    last_transaction_id: (self.last_transaction_id + 2) as i64,
                    ..self
                },
            )
        }
    }

    /// The entries of `container` as they are listed: the latest first.
    pub open spec fn listed_entries(self, container: i64, limit: Option<i64>) -> Seq<
        TransactionView,
    > {
        limited(
            stable_sorted(
                keep_where(self.transactions, entry_in(container)),
                row_order::<Transaction>(),
            ),
            limit,
        )
    }

    /// The entries of `container` that refer to `account`, the latest first.
    pub open spec fn listed_entries_on(self, container: i64, account: i64, limit: Option<i64>) -> Seq<
        TransactionView,
    > {
        limited(
            stable_sorted(
                keep_where(self.transactions, entry_in_on(container, account)),
                row_order::<Transaction>(),
            ),
            limit,
        )
    }

    /// The entries of `container` whose timestamp begins with `month`, the
    /// latest first.
    pub open spec fn listed_entries_in(
        self,
        container: i64,
        month: Seq<char>,
        limit: Option<i64>,
    ) -> Seq<TransactionView> {
        limited(
            stable_sorted(
                keep_where(self.transactions, entry_in_month(container, month)),
                row_order::<Transaction>(),
            ),
            limit,
        )
    }
}

/// Recording a plain entry keeps the invariant.
pub proof fn record_keeps_wf(
    a: Ledger,
    amount: i64,
    description: Seq<char>,
    category: Seq<char>,
    date: Seq<char>,
    container: i64,
    account: i64,
)
    requires
        a.wf(),
        a.record(amount, description, category, date, container, account) is Ok,
    ensures
        a.record(amount, description, category, date, container, account)->Ok_0.wf(),
{
    let b = a.record(amount, description, category, date, container, account)->Ok_0;
    let t = a.transactions;
    let u = b.transactions;
    containers_carry_over(a, b);
    accounts_carry_over(a, b);
    categories_carry_over(a, b);
    assert(u.drop_last() =~= t);
    assert forall|i: int| 0 <= i < u.len() implies {
        &&& 1 <= (#[trigger] u[i]).id <= b.last_transaction_id
        &&& u[i].transfer_id >= 0
        &&& b.has_container(u[i].container_id)
    } by {
        if i < t.len() {
            assert(u[i] == t[i]);
            assert(a.has_container(t[i].container_id));
        }
    }
    assert(ascending(u, entry_id())) by {
        assert forall|i: int, j: int|
            #![trigger u[i], u[j]]
            0 <= i < j < u.len() implies entry_id()(u[i]) < entry_id()(u[j]) by {
            assert(u[i] == t[i]);
            if j < t.len() {
                assert(u[j] == t[j]);
            }
        }
    }
    assert forall|i: int, j: int|
        #![trigger u[i], u[j]]
        0 <= i < u.len() && 0 <= j < u.len() && u[i].id != u[j].id && u[i].transfer_id != 0
            && u[i].transfer_id == u[j].transfer_id implies legs_pair(u[i], u[j]) by {
        assert(u[i] == t[i] && u[j] == t[j]);
    }
    assert forall|transfer: i64| transfer != 0 implies #[trigger] b.leg_count(transfer) == 0
        || b.leg_count(transfer) == 2 by {
        assert(a.leg_count(transfer) == 0 || a.leg_count(transfer) == 2);
    }
}

/// In a well-formed ledger the transfer identifier of an entry is that of the
/// row that has its identifier.
pub proof fn transfer_of_row(a: Ledger, i: int)
    requires
        a.transactions_wf(),
        0 <= i < a.transactions.len(),
    ensures
        a.transfer_of(a.transactions[i].id) == a.transactions[i].transfer_id,
{
    let id = a.transactions[i].id;
    let k = choose|k: int|
        0 <= k < a.transactions.len() && (#[trigger] a.transactions[k]).id == id;
    ascending_distinct(a.transactions, entry_id(), i, k);
}

/// Revising a plain entry keeps the invariant.
pub proof fn update_transaction_keeps_wf(
    a: Ledger,
    id: i64,
    amount: i64,
    description: Seq<char>,
    category: Seq<char>,
    account: i64,
)
    requires
        a.wf(),
        a.update_transaction(id, amount, description, category, account) is Ok,
    ensures
        a.update_transaction(id, amount, description, category, account)->Ok_0.wf(),
{
    let b = a.update_transaction(id, amount, description, category, account)->Ok_0;
    let t = a.transactions;
    let u = b.transactions;
    let g = revise_entry(id, amount, description, category, account);
    containers_carry_over(a, b);
    accounts_carry_over(a, b);
    categories_carry_over(a, b);
    count_is_zero(t, leg_with_id(id));
    assert forall|i: int| 0 <= i < u.len() implies {
        &&& 1 <= (#[trigger] u[i]).id <= b.last_transaction_id
        &&& u[i].transfer_id >= 0
        &&& b.has_container(u[i].container_id)
    } by {
        assert(u[i].id == t[i].id && u[i].container_id == t[i].container_id);
        assert(a.has_container(t[i].container_id));
    }
    assert(ascending(u, entry_id())) by {
        assert forall|i: int, j: int|
            #![trigger u[i], u[j]]
            0 <= i < j < u.len() implies entry_id()(u[i]) < entry_id()(u[j]) by {
            assert(entry_id()(t[i]) < entry_id()(t[j]));
        }
    }
    assert forall|i: int, j: int|
        #![trigger u[i], u[j]]
        0 <= i < u.len() && 0 <= j < u.len() && u[i].id != u[j].id && u[i].transfer_id != 0
            && u[i].transfer_id == u[j].transfer_id implies legs_pair(u[i], u[j]) by {
        assert(u[i].id == t[i].id && u[j].id == t[j].id);
        assert(!leg_with_id(id)(t[i]) && !leg_with_id(id)(t[j]));
        assert(legs_pair(t[i], t[j]));
    }
    assert forall|transfer: i64| transfer != 0 implies #[trigger] b.leg_count(transfer) == 0
        || b.leg_count(transfer) == 2 by {
        assert(a.leg_count(transfer) == 0 || a.leg_count(transfer) == 2);
        count_map(t, g, leg_of(transfer), leg_of(transfer));
    }
}

/// What is kept of the entries of a well-formed ledger is well formed, where
/// the legs of each transfer are kept or dropped together.
pub proof fn kept_entries_wf(a: Ledger, b: Ledger, keep: spec_fn(TransactionView) -> bool)
    requires
        a.wf(),
        b == (Ledger { transactions: keep_where(a.transactions, keep), ..a }),
        forall|i: int, j: int|
            #![trigger a.transactions[i], a.transactions[j]]
            0 <= i < a.transactions.len() && 0 <= j < a.transactions.len()
                && a.transactions[i].transfer_id != 0 && a.transactions[i].transfer_id
                == a.transactions[j].transfer_id ==> keep(a.transactions[i]) == keep(
                a.transactions[j],
            ),
    ensures
        b.wf(),
{
    let t = a.transactions;
    let u = b.transactions;
    containers_carry_over(a, b);
    accounts_carry_over(a, b);
    categories_carry_over(a, b);
    keep_ascending(t, keep, entry_id());
    assert forall|i: int| 0 <= i < u.len() implies {
        &&& 1 <= (#[trigger] u[i]).id <= b.last_transaction_id
        &&& u[i].transfer_id >= 0
        &&& b.has_container(u[i].container_id)
    } by {
        let k = kept_is_member(t, keep, i);
        assert(a.has_container(t[k].container_id));
    }
    assert forall|i: int, j: int|
        #![trigger u[i], u[j]]
        0 <= i < u.len() && 0 <= j < u.len() && u[i].id != u[j].id && u[i].transfer_id != 0
            && u[i].transfer_id == u[j].transfer_id implies legs_pair(u[i], u[j]) by {
        let k = kept_is_member(t, keep, i);
        let m = kept_is_member(t, keep, j);
        assert(legs_pair(t[k], t[m]));
    }
    assert forall|transfer: i64| transfer != 0 implies #[trigger] b.leg_count(transfer) == 0
        || b.leg_count(transfer) == 2 by {
        assert(a.leg_count(transfer) == 0 || a.leg_count(transfer) == 2);
        if exists|i: int| 0 <= i < t.len() && (#[trigger] t[i]).transfer_id == transfer && keep(t[i]) {
            let w = choose|i: int|
                0 <= i < t.len() && (#[trigger] t[i]).transfer_id == transfer && keep(t[i]);
            assert forall|i: int| 0 <= i < t.len() && leg_of(transfer)(#[trigger] t[i]) implies keep(
                t[i],
            ) by {
                assert(keep(t[i]) == keep(t[w]));
            }
            count_keep_all(t, keep, leg_of(transfer));
        } else {
            count_keep_none(t, keep, leg_of(transfer));
        }
    }
}

/// Deleting an entry, or the two legs of a transfer, keeps the invariant.
pub proof fn delete_transaction_keeps_wf(a: Ledger, id: i64)
    requires
        a.wf(),
        a.delete_transaction(id) is Ok,
    ensures
        a.delete_transaction(id)->Ok_0.wf(),
{
    let b = a.delete_transaction(id)->Ok_0;
    let t = a.transactions;
    let place = crate::seqs::count_witness(t, entry_is(id));
    transfer_of_row(a, place);
    let transfer = a.transfer_of(id);
    if transfer != 0 {
        kept_entries_wf(a, b, not_leg_of(transfer));
    } else {
        assert forall|i: int, j: int|
            #![trigger t[i], t[j]]
            0 <= i < t.len() && 0 <= j < t.len() && t[i].transfer_id != 0 && t[i].transfer_id
                == t[j].transfer_id implies entry_is_not(id)(t[i]) == entry_is_not(id)(t[j]) by {
            if t[i].id == id {
                ascending_distinct(t, entry_id(), i, place);
            }
            if t[j].id == id {
                ascending_distinct(t, entry_id(), j, place);
            }
        }
        kept_entries_wf(a, b, entry_is_not(id));
    }
}

/// A transfer keeps the invariant.
pub proof fn add_transfer_keeps_wf(
    a: Ledger,
    container: i64,
    from: i64,
    to: i64,
    amount: i64,
    description: Seq<char>,
    date: Seq<char>,
)
    requires
        a.wf(),
        a.add_transfer(container, from, to, amount, description, date) is Ok,
    ensures
        a.add_transfer(container, from, to, amount, description, date)->Ok_0.wf(),
{
    let b = a.add_transfer(container, from, to, amount, description, date)->Ok_0;
    let t = a.transactions;
    let u = b.transactions;
    let debit = a.debit_leg(container, from, to, amount, description, date);
    let credit = a.credit_leg(container, from, to, amount, description, date);
    let fresh = a.next_transfer_id() as i64;
    containers_carry_over(a, b);
    accounts_carry_over(a, b);
    categories_carry_over(a, b);
    max_transfer_nonneg(t);
    assert(u.drop_last() =~= t.push(debit));
    assert(t.push(debit).drop_last() =~= t);
    assert forall|i: int| 0 <= i < t.len() implies (#[trigger] t[i]).transfer_id < fresh by {
        max_transfer_bounds(t, i);
    }
    assert forall|i: int| 0 <= i < u.len() implies {
        &&& 1 <= (#[trigger] u[i]).id <= b.last_transaction_id
        &&& u[i].transfer_id >= 0
        &&& b.has_container(u[i].container_id)
    } by {
        if i < t.len() {
            assert(u[i] == t[i]);
            assert(a.has_container(t[i].container_id));
        }
    }
    assert(ascending(u, entry_id())) by {
        assert forall|i: int, j: int|
            #![trigger u[i], u[j]]
            0 <= i < j < u.len() implies entry_id()(u[i]) < entry_id()(u[j]) by {
            if i < t.len() {
                assert(u[i] == t[i]);
            }
            if j < t.len() {
                assert(u[j] == t[j]);
            }
        }
    }
    assert forall|i: int, j: int|
        #![trigger u[i], u[j]]
        0 <= i < u.len() && 0 <= j < u.len() && u[i].id != u[j].id && u[i].transfer_id != 0
            && u[i].transfer_id == u[j].transfer_id implies legs_pair(u[i], u[j]) by {
        if i < t.len() {
            assert(u[i] == t[i]);
        }
        if j < t.len() {
            assert(u[j] == t[j]);
        }
    }
    assert forall|transfer: i64| transfer != 0 implies #[trigger] b.leg_count(transfer) == 0
        || b.leg_count(transfer) == 2 by {
        assert(a.leg_count(transfer) == 0 || a.leg_count(transfer) == 2);
        let mid = t.push(debit);
        let p = leg_of(transfer);
        assert(u.last() == credit && mid.last() == debit);
        assert(count_where(mid, p) == count_where(t, p) + if p(debit) {
            1nat
        } else {
            0nat
        });
        assert(count_where(u, p) == count_where(mid, p) + if p(credit) {
            1nat
        } else {
            0nat
        });
        if transfer == fresh {
            count_is_zero(t, p);
        }
    }
}

/// The largest transfer identifier among `rows`, or 0 where there is none.
fn largest_transfer_id(rows: &Vec<Transaction>) -> (r: i64)
    ensures
        r == max_transfer_id(views_of(rows@)),
{
    let ghost all = views_of(rows@);
    let mut r: i64 = 0;
    let mut i: usize = 0;
    while i < rows.len()
        invariant
            i <= rows.len(),
            all == views_of(rows@),
            r == max_transfer_id(all.take(i as int)),
        decreases rows.len() - i,
    {
        assert(all.take(i + 1).drop_last() =~= all.take(i as int));
        assert(all.take(i + 1).last() == rows@[i as int]@);
        if rows[i].transfer_id > r {
            r = rows[i].transfer_id;
        }
        i += 1;
    }
    assert(all.take(rows@.len() as int) =~= all);
    r
}

/// The first `limit` rows of `rows`; all of them where there is no limit,
/// a negative one, or one beyond their number.
fn limit_rows(rows: Vec<Transaction>, limit: Option<i64>) -> (r: Vec<Transaction>)
    ensures
        views_of(r@) == limited(views_of(rows@), limit),
{
    let mut rows = rows;
    match limit {
        Some(l) => {
            if 0 <= l && (l as u64) < rows.len() as u64 {
                let ghost before = views_of(rows@);
                rows.truncate(l as usize);
                assert(views_of(rows@) =~= before.take(l as int));
            }
        },
        None => {},
    }
    rows
}

impl Database {
    /// Stores a plain entry and returns its row. This is how every plain
    /// entry enters the store, those of an import too.
    pub fn insert_entry(
        &mut self,
        amount: i64,
        description: String,
        category: String,
        date: String,
        container_id: i64,
        account_id: i64,
    ) -> (r: Result<Transaction, LedgerError>)
        requires
            old(self)@.wf(),
        ensures
            final(self)@.wf(),
            outcome(
                old(self)@,
                final(self)@,
                old(self)@.record(
                    amount,
                    description@,
                    category@,
                    date@,
                    container_id,
                    account_id,
                ),
                r,
            ),
            r matches Ok(row) ==> row@ == old(self)@.plain_entry(
                amount,
                description@,
                category@,
                date@,
                container_id,
                account_id,
            ),
    {
        if first_place(&self.containers, &ContainerSelector::Is(container_id)).is_none() {
            return Err(LedgerError::NotFound);
        }
        if self.last_transaction_id == i64::MAX {
            return Err(LedgerError::Storage(StorageFault::Exhausted));
        }
        proof {
            record_keeps_wf(
                self@,
                amount,
                description@,
                category@,
                date@,
                container_id,
                account_id,
            );
        }
        let id: i64 = self.last_transaction_id + 1;
        let row = Transaction {
            id,
            amount,
            description,
            category,
            date,
            container_id,
            account_id,
            transfer_id: 0,
            transfer_account_id: 0,
        };
        let copy = row.copy_row();
        let ghost before = views_of(self.transactions@);
        self.transactions.push(row);
        self.last_transaction_id = id;
        assert(views_of(self.transactions@) =~= before.push(copy@));
        Ok(copy)
    }

    /// Records a plain entry at the moment `now` and returns its row. A
    /// missing description becomes "Untitled", a missing category "Other".
    pub fn add_transaction_at(&mut self, transaction: NewTransaction, now: &str) -> (r: Result<
        Transaction,
        LedgerError,
    >)
        requires
            old(self)@.wf(),
        ensures
            final(self)@.wf(),
            outcome(
                old(self)@,
                final(self)@,
                old(self)@.record(
                    transaction.amount,
                    text_or(transaction.description, "Untitled"@),
                    text_or(transaction.category, "Other"@),
                    now@,
                    transaction.container_id,
                    transaction.account_id,
                ),
                r,
            ),
            r matches Ok(row) ==> row@ == old(self)@.plain_entry(
                transaction.amount,
                text_or(transaction.description, "Untitled"@),
                text_or(transaction.category, "Other"@),
                now@,
                transaction.container_id,
                transaction.account_id,
            ),
    {
        let description = match transaction.description {
            Some(s) => s,
            None => "Untitled".to_owned(),
        };
        let category = match transaction.category {
            Some(s) => s,
            None => "Other".to_owned(),
        };
        self.insert_entry(
            transaction.amount,
            description,
            category,
            now.to_owned(),
            transaction.container_id,
            transaction.account_id,
        )
    }

    /// Records a plain entry, stamped with the local time, and returns its
    /// row. A missing description becomes "Untitled", a missing category
    /// "Other".
    pub fn add_transaction(&mut self, transaction: NewTransaction) -> (r: Result<
        Transaction,
        LedgerError,
    >)
        requires
            old(self)@.wf(),
        ensures
            final(self)@.wf(),
            exists|now: Timestamp|
                now.is_valid() && outcome(
                    old(self)@,
                    final(self)@,
                    #[trigger] old(self)@.record(
                        transaction.amount,
                        text_or(transaction.description, "Untitled"@),
                        text_or(transaction.category, "Other"@),
                        timestamp_text(now),
                        transaction.container_id,
                        transaction.account_id,
                    ),
                    r,
                ) && (r matches Ok(row) ==> row@ == old(self)@.plain_entry(
                    transaction.amount,
                    text_or(transaction.description, "Untitled"@),
                    text_or(transaction.category, "Other"@),
                    timestamp_text(now),
                    transaction.container_id,
                    transaction.account_id,
                )),
    {
        let now = Timestamp::now();
        let text = now.text();
        self.add_transaction_at(transaction, text.as_str())
    }

    /// Moves `amount` from one account to another at the moment `now`: a debit
    /// leg and a credit leg that share a new transfer identifier, which is
    /// returned. A missing description becomes "Transfer".
    pub fn add_transfer_at(
        &mut self,
        container_id: i64,
        from_account_id: i64,
        to_account_id: i64,
        amount: i64,
        description: Option<String>,
        now: &str,
    ) -> (r: Result<i64, LedgerError>)
        requires
            old(self)@.wf(),
        ensures
            final(self)@.wf(),
            outcome(
                old(self)@,
                final(self)@,
                old(self)@.add_transfer(
                    container_id,
                    from_account_id,
                    to_account_id,
                    amount,
                    text_or(description, "Transfer"@),
                    now@,
                ),
                r,
            ),
            r matches Ok(transfer) ==> transfer == old(self)@.next_transfer_id(),
    {
        if from_account_id == to_account_id {
            return Err(LedgerError::InvalidTransfer(TransferFault::SameAccount));
        }
        if amount <= 0 {
            return Err(LedgerError::InvalidTransfer(TransferFault::NonPositiveAmount));
        }
        if first_place(&self.containers, &ContainerSelector::Is(container_id)).is_none() {
            return Err(LedgerError::NotFound);
        }
        let largest = largest_transfer_id(&self.transactions);
        if largest == i64::MAX || self.last_transaction_id > i64::MAX - 2 {
            return Err(LedgerError::Storage(StorageFault::Exhausted));
        }
        let text = match description {
            Some(s) => s,
            None => "Transfer".to_owned(),
        };
        proof {
            add_transfer_keeps_wf(
                self@,
                container_id,
                from_account_id,
                to_account_id,
                amount,
                text@,
                now@,
            );
        }
        let transfer_id: i64 = largest + 1;
        let debit = Transaction {
            id: self.last_transaction_id + 1,
            amount: -amount,
            description: text.clone(),
            category: "Transfer".to_owned(),
            date: now.to_owned(),
            container_id,
            account_id: from_account_id,
            transfer_id,
            transfer_account_id: to_account_id,
        };
        let credit = Transaction {
            id: self.last_transaction_id + 2,
            amount,
            description: text,
            category: "Transfer".to_owned(),
            date: now.to_owned(),
            container_id,
            account_id: to_account_id,
            transfer_id,
            transfer_account_id: from_account_id,
        };
        let ghost before = views_of(self.transactions@);
        let ghost first = debit@;
        let ghost second = credit@;
        self.transactions.push(debit);
        self.transactions.push(credit);
        self.last_transaction_id = self.last_transaction_id + 2;
        assert(views_of(self.transactions@) =~= before.push(first).push(second));
        Ok(transfer_id)
    }

    /// Moves `amount` from one account to another, stamped with the local
    /// time, and returns the new transfer identifier.
    pub fn add_transfer(
        &mut self,
        container_id: i64,
        from_account_id: i64,
        to_account_id: i64,
        amount: i64,
        description: Option<String>,
    ) -> (r: Result<i64, LedgerError>)
        requires
            old(self)@.wf(),
        ensures
            final(self)@.wf(),
            exists|now: Timestamp|
                now.is_valid() && outcome(
                    old(self)@,
                    final(self)@,
                    #[trigger] old(self)@.add_transfer(
                        container_id,
                        from_account_id,
                        to_account_id,
                        amount,
                        text_or(description, "Transfer"@),
                        timestamp_text(now),
                    ),
                    r,
                ),
            r matches Ok(transfer) ==> transfer == old(self)@.next_transfer_id(),
    {
        let now = Timestamp::now();
        let text = now.text();
        self.add_transfer_at(
            container_id,
            from_account_id,
            to_account_id,
            amount,
            description,
            text.as_str(),
        )
    }

    /// Revises a plain entry and returns its row. Its container and its
    /// timestamp stay. A leg of a transfer cannot be revised.
    pub fn update_transaction(
        &mut self,
        id: i64,
        amount: i64,
        description: String,
        category: String,
        account_id: i64,
    ) -> (r: Result<Transaction, LedgerError>)
        requires
            old(self)@.wf(),
        ensures
            final(self)@.wf(),
            outcome(
                old(self)@,
                final(self)@,
                old(self)@.update_transaction(id, amount, description@, category@, account_id),
                r,
            ),
            r matches Ok(row) ==> row@.id == id && row@.amount == amount && row@.description
                == description@ && row@.category == category@ && row@.account_id == account_id
                && row@.transfer_id == 0 && count_where(
                final(self)@.transactions,
                |t: TransactionView| t == row@,
            ) >= 1,
    {
        let place = match first_place(&self.transactions, &EntrySelector::Is(id)) {
            Some(i) => i,
            None => {
                return Err(LedgerError::NotFound);
            },
        };
        if first_place(&self.transactions, &EntrySelector::LegWithId(id)).is_some() {
            return Err(LedgerError::ImmutableEntity);
        }
        proof {
            update_transaction_keeps_wf(self@, id, amount, description@, category@, account_id);
        }
        let ghost before = views_of(self.transactions@);
        proof {
            count_is_zero(before, leg_with_id(id));
            assert(before[place as int].id == id);
            assert(!leg_with_id(id)(before[place as int]));
        }
        let row = Transaction {
            id,
            amount,
            description,
            category,
            date: self.transactions[place].date.clone(),
            container_id: self.transactions[place].container_id,
            account_id,
            transfer_id: self.transactions[place].transfer_id,
            transfer_account_id: self.transactions[place].transfer_account_id,
        };
        let copy = row.copy_row();
        self.transactions.set(place, row);
        proof {
            let after = views_of(self.transactions@);
            let revised = before.map_values(
                revise_entry(id, amount, description@, category@, account_id),
            );
            assert forall|k: int| 0 <= k < after.len() implies after[k] == revised[k] by {
                if k != place {
                    if before[k].id == id {
                        ascending_distinct(before, entry_id(), k, place as int);
                    }
                }
            }
            assert(after =~= revised);
            count_has(after, |t: TransactionView| t == copy@, place as int);
        }
        Ok(copy)
    }

    /// Deletes an entry. Where it is a leg of a transfer, both legs go.
    pub fn delete_transaction(&mut self, id: i64) -> (r: Result<(), LedgerError>)
        requires
            old(self)@.wf(),
        ensures
            final(self)@.wf(),
            outcome(old(self)@, final(self)@, old(self)@.delete_transaction(id), r),
    {
        let place = match first_place(&self.transactions, &EntrySelector::Is(id)) {
            Some(i) => i,
            None => {
                return Err(LedgerError::NotFound);
            },
        };
        proof {
            assert(views_of(self.transactions@)[place as int].id == id);
            transfer_of_row(self@, place as int);
            delete_transaction_keeps_wf(self@, id);
        }
        let transfer_id: i64 = self.transactions[place].transfer_id;
        if transfer_id != 0 {
            self.transactions = kept_rows(&self.transactions, &EntrySelector::NotLegOf(transfer_id));
        } else {
            self.transactions = kept_rows(&self.transactions, &EntrySelector::IsNot(id));
        }
        Ok(())
    }

    /// The entries of `container`, the latest first, at most `limit` of them.
    pub fn get_transactions(&self, container_id: i64, limit: Option<i64>) -> (r: Vec<Transaction>)
        ensures
            views_of(r@) == self@.listed_entries(container_id, limit),
    {
        let own = kept_rows(&self.transactions, &EntrySelector::In(container_id));
        limit_rows(sorted_rows(&own), limit)
    }

    /// The entries of `container` that refer to `account`, the latest first,
    /// at most `limit` of them.
    pub fn get_transactions_by_account(
        &self,
        container_id: i64,
        account_id: i64,
        limit: Option<i64>,
    ) -> (r: Vec<Transaction>)
        ensures
            views_of(r@) == self@.listed_entries_on(container_id, account_id, limit),
    {
        let own = kept_rows(&self.transactions, &EntrySelector::InOn(container_id, account_id));
        limit_rows(sorted_rows(&own), limit)
    }

    /// The entries of `container` whose timestamp begins with `month`, the
    /// latest first, at most `limit` of them.
    pub fn get_transactions_for_month(
        &self,
        container_id: i64,
        month: String,
        limit: Option<i64>,
    ) -> (r: Vec<Transaction>)
        ensures
            views_of(r@) == self@.listed_entries_in(container_id, month@, limit),
    {
        let by = EntrySelector::InMonth(container_id, chars_of(month.as_str()));
        let own = kept_rows(&self.transactions, &by);
        limit_rows(sorted_rows(&own), limit)
    }
}

} // verus!
