//! Accounts: creating, revising, deleting and listing them.

use crate::calendar::{timestamp_text, Timestamp};
use crate::error::{LedgerError, StorageFault};
use crate::ledger::{
    account_id, account_in, account_is, account_is_not, account_named_in, categories_carry_over,
    containers_carry_over, entries_carry_over, entry_id, leg_of, legs_pair, outcome, Ledger,
};
use crate::model::{Account, AccountView, Transaction, TransactionView};
use crate::order::{row_order, sorted_rows, stable_sorted, views_of, Row};
use crate::select::{first_place, kept_rows};
use crate::selectors::{AccountSelector, ContainerSelector};
use crate::seqs::{
    ascending, ascending_distinct, count_has, count_is_zero, count_map, count_where, keep_ascending,
    keep_where, kept_is_member,
};
use crate::store::Database;
use crate::text::{trim_text, trimmed};
use vstd::prelude::*;

verus! {

/// The accounts other than `id` that are named `name` in container
/// `container`.
pub open spec fn other_account_named_in(id: i64, name: Seq<char>, container: i64) -> spec_fn(
    AccountView,
) -> bool {
    |a: AccountView| a.id != id && a.name == name && a.container_id == container
}

/// Gives the account `id` a name and an opening balance and leaves the others
/// as they are.
pub open spec fn revise_in(id: i64, name: Seq<char>, opening_balance: i64) -> spec_fn(
    AccountView,
) -> AccountView {
    |a: AccountView|
        if a.id == id {
            AccountView { name: name, opening_balance: opening_balance, ..a }
        } else {
            a
        }
}

/// Clears the reference to account `id` and leaves the other entries as they
/// are.
pub open spec fn clear_account(id: i64) -> spec_fn(TransactionView) -> TransactionView {
    |t: TransactionView|
        if t.account_id == id {
            TransactionView { account_id: 0, ..t }
        } else {
            t
        }
}

impl Ledger {
    /// The row that a new account gets. Name and type are trimmed.
    pub open spec fn new_account(
        self,
        container: i64,
        name: Seq<char>,
        account_type: Seq<char>,
        opening_balance: i64,
        now: Seq<char>,
    ) -> AccountView {
        AccountView {
            id: (self.last_account_id + 1) as i64,
            name: trimmed(name),
            account_type: trimmed(account_type),
            opening_balance: opening_balance,
            container_id: container,
            created_at: now,
        }
    }

    /// The ledger with a new account. It fails where the container does not
    /// exist, where the trimmed name is in use in the container, or where no
    /// identifier is left.
    pub open spec fn add_account(
        self,
        container: i64,
        name: Seq<char>,
        account_type: Seq<char>,
        opening_balance: i64,
        now: Seq<char>,
    ) -> Result<Ledger, LedgerError> {
        if !self.has_container(container) {
            Err(LedgerError::NotFound)
        } else if count_where(self.accounts, account_named_in(trimmed(name), container)) >= 1 {
            Err(LedgerError::Storage(StorageFault::Conflict))
        } else if self.last_account_id == i64::MAX {
            Err(LedgerError::Storage(StorageFault::Exhausted))
        } else {
            Ok(
                Ledger {
                    accounts: self.accounts.push(
                        self.new_account(container, name, account_type, opening_balance, now),
                    ),
                    last_account_id: (self.last_account_id + 1) as i64,
                    ..self
                },
            )
        }
    }

    /// The container of account `id`.
    pub open spec fn container_of(self, id: i64) -> i64 {
        let i = choose|i: int| 0 <= i < self.accounts.len() && (#[trigger] self.accounts[i]).id
            == id;
        self.accounts[i].container_id
    }

    /// The ledger with account `id` given the trimmed name and the opening
    /// balance. It fails where there is no such account, or where another
    /// account of its container has the name.
    pub open spec fn update_account(self, id: i64, name: Seq<char>, opening_balance: i64) -> Result<
        Ledger,
        LedgerError,
    > {
        if count_where(self.accounts, account_is(id)) == 0 {
            Err(LedgerError::NotFound)
        } else if count_where(
            self.accounts,
            other_account_named_in(id, trimmed(name), self.container_of(id)),
        ) >= 1 {
            Err(LedgerError::Storage(StorageFault::Conflict))
        } else {
            Ok(
                Ledger {
                    accounts: self.accounts.map_values(
                        revise_in(id, trimmed(name), opening_balance),
                    ),
                    ..self
                },
            )
        }
    }

    /// The ledger without account `id`. Its entries stay, without their
    /// reference to it.
    pub open spec fn delete_account(self, id: i64) -> Ledger {
        Ledger {
            accounts: keep_where(self.accounts, account_is_not(id)),
            transactions: self.transactions.map_values(clear_account(id)),
            ..self
        }
    }

    /// The accounts of `container` as they are listed: by name.
    pub open spec fn listed_accounts(self, container: i64) -> Seq<AccountView> {
        stable_sorted(keep_where(self.accounts, account_in(container)), row_order::<Account>())
    }
}

/// Adding an account keeps the invariant.
pub proof fn add_account_keeps_wf(
    a: Ledger,
    container: i64,
    name: Seq<char>,
    account_type: Seq<char>,
    opening_balance: i64,
    now: Seq<char>,
)
    requires
        a.wf(),
        a.add_account(container, name, account_type, opening_balance, now) is Ok,
    ensures
        a.add_account(container, name, account_type, opening_balance, now)->Ok_0.wf(),
{
    let b = a.add_account(container, name, account_type, opening_balance, now)->Ok_0;
    let c = a.accounts;
    let d = b.accounts;
    containers_carry_over(a, b);
    categories_carry_over(a, b);
    entries_carry_over(a, b);
    assert(d.drop_last() =~= c);
    count_is_zero(c, account_named_in(trimmed(name), container));
    assert forall|i: int| 0 <= i < d.len() implies {
        &&& 1 <= (#[trigger] d[i]).id <= b.last_account_id
        &&& b.has_container(d[i].container_id)
    } by {
        if i < c.len() {
            assert(d[i] == c[i]);
            assert(a.has_container(c[i].container_id));
        }
    }
    assert(ascending(d, account_id())) by {
        assert forall|i: int, j: int|
            #![trigger d[i], d[j]]
            0 <= i < j < d.len() implies account_id()(d[i]) < account_id()(d[j]) by {
            assert(d[i] == c[i]);
            if j < c.len() {
                assert(d[j] == c[j]);
            }
        }
    }
    assert forall|i: int, j: int|
        #![trigger d[i], d[j]]
        0 <= i < d.len() && 0 <= j < d.len() && d[i].id != d[j].id implies !(d[i].name
        == d[j].name && d[i].container_id == d[j].container_id) by {
        if i < c.len() {
            assert(d[i] == c[i]);
        }
        if j < c.len() {
            assert(d[j] == c[j]);
        }
    }
}

/// In a well-formed ledger the container of an account is the container of
/// the row that has its identifier.
pub proof fn container_of_row(a: Ledger, i: int)
    requires
        a.accounts_wf(),
        0 <= i < a.accounts.len(),
    ensures
        a.container_of(a.accounts[i].id) == a.accounts[i].container_id,
{
    let id = a.accounts[i].id;
    let k = choose|k: int| 0 <= k < a.accounts.len() && (#[trigger] a.accounts[k]).id == id;
    ascending_distinct(a.accounts, account_id(), i, k);
}

/// Revising an account keeps the invariant.
pub proof fn update_account_keeps_wf(a: Ledger, id: i64, name: Seq<char>, opening_balance: i64)
    requires
        a.wf(),
        a.update_account(id, name, opening_balance) is Ok,
    ensures
        a.update_account(id, name, opening_balance)->Ok_0.wf(),
{
    let b = a.update_account(id, name, opening_balance)->Ok_0;
    let c = a.accounts;
    let d = b.accounts;
    let n = trimmed(name);
    containers_carry_over(a, b);
    categories_carry_over(a, b);
    entries_carry_over(a, b);
    count_is_zero(c, other_account_named_in(id, n, a.container_of(id)));
    assert forall|i: int| 0 <= i < d.len() implies {
        &&& 1 <= (#[trigger] d[i]).id <= b.last_account_id
        &&& b.has_container(d[i].container_id)
    } by {
        assert(d[i].id == c[i].id && d[i].container_id == c[i].container_id);
        assert(a.has_container(c[i].container_id));
    }
    assert(ascending(d, account_id())) by {
        assert forall|i: int, j: int|
            #![trigger d[i], d[j]]
            0 <= i < j < d.len() implies account_id()(d[i]) < account_id()(d[j]) by {
            assert(account_id()(c[i]) < account_id()(c[j]));
        }
    }
    assert forall|i: int, j: int|
        #![trigger d[i], d[j]]
        0 <= i < d.len() && 0 <= j < d.len() && d[i].id != d[j].id implies !(d[i].name
        == d[j].name && d[i].container_id == d[j].container_id) by {
        assert(d[i].id == c[i].id && d[j].id == c[j].id);
        assert(!(c[i].name == c[j].name && c[i].container_id == c[j].container_id));
        if c[i].id == id {
            container_of_row(a, i);
            assert(!other_account_named_in(id, n, a.container_of(id))(c[j]));
        }
        if c[j].id == id {
            container_of_row(a, j);
            assert(!other_account_named_in(id, n, a.container_of(id))(c[i]));
        }
    }
}

/// Deleting an account keeps the invariant.
pub proof fn delete_account_keeps_wf(a: Ledger, id: i64)
    requires
        a.wf(),
    ensures
        a.delete_account(id).wf(),
{
    let b = a.delete_account(id);
    containers_carry_over(a, b);
    categories_carry_over(a, b);
    let keep_a = account_is_not(id);
    keep_ascending(a.accounts, keep_a, account_id());
    assert forall|i: int| 0 <= i < b.accounts.len() implies {
        &&& 1 <= (#[trigger] b.accounts[i]).id <= b.last_account_id
        &&& b.has_container(b.accounts[i].container_id)
    } by {
        let k = kept_is_member(a.accounts, keep_a, i);
        assert(a.has_container(a.accounts[k].container_id));
    }
    assert forall|i: int, j: int|
        #![trigger b.accounts[i], b.accounts[j]]
        0 <= i < b.accounts.len() && 0 <= j < b.accounts.len() && b.accounts[i].id
            != b.accounts[j].id implies !(b.accounts[i].name == b.accounts[j].name
        && b.accounts[i].container_id == b.accounts[j].container_id) by {
        let k = kept_is_member(a.accounts, keep_a, i);
        let m = kept_is_member(a.accounts, keep_a, j);
        assert(!(a.accounts[k].name == a.accounts[m].name && a.accounts[k].container_id
            == a.accounts[m].container_id));
    }
    let t = a.transactions;
    let u = b.transactions;
    assert forall|i: int| 0 <= i < u.len() implies {
        &&& 1 <= (#[trigger] u[i]).id <= b.last_transaction_id
        &&& u[i].transfer_id >= 0
        &&& b.has_container(u[i].container_id)
    } by {
        assert(u[i].id == t[i].id && u[i].container_id == t[i].container_id);
        assert(a.has_container(t[i].container_id));
    }
    assert(ascending(u, entry_id())) by {
        assert forall|i: int, j: int|
            #![trigger u[i], u[j]]
            0 <= i < j < u.len() implies entry_id()(u[i]) < entry_id()(u[j]) by {
            assert(entry_id()(t[i]) < entry_id()(t[j]));
        }
    }
    assert forall|i: int, j: int|
        #![trigger u[i], u[j]]
        0 <= i < u.len() && 0 <= j < u.len() && u[i].id != u[j].id && u[i].transfer_id != 0
            && u[i].transfer_id == u[j].transfer_id implies legs_pair(u[i], u[j]) by {
        assert(u[i].id == t[i].id && u[j].id == t[j].id);
        assert(legs_pair(t[i], t[j]));
    }
    assert forall|transfer: i64| transfer != 0 implies #[trigger] b.leg_count(transfer) == 0
        || b.leg_count(transfer) == 2 by {
        assert(a.leg_count(transfer) == 0 || a.leg_count(transfer) == 2);
        count_map(t, clear_account(id), leg_of(transfer), leg_of(transfer));
    }
}

/// The entries of `rows` with every reference to account `id` cleared.
fn cleared_entries(rows: &Vec<Transaction>, id: i64) -> (r: Vec<Transaction>)
    ensures
        views_of(r@) == views_of(rows@).map_values(clear_account(id)),
{
    let mut r: Vec<Transaction> = Vec::new();
    let mut i: usize = 0;
    while i < rows.len()
        invariant
            i <= rows.len(),
            r@.len() == i,
            forall|k: int| 0 <= k < i ==> (#[trigger] r@[k])@ == clear_account(id)(rows@[k]@),
        decreases rows.len() - i,
    {
        let mut row = rows[i].copy_row();
        if row.account_id == id {
            row.account_id = 0;
        }
        r.push(row);
        i += 1;
    }
    assert(views_of(r@) =~= views_of(rows@).map_values(clear_account(id)));
    r
}

impl Database {
    /// Creates an account in `container` at the moment `now`, and returns its
    /// row. Name and type are trimmed.
    pub fn add_account_at(
        &mut self,
        container_id: i64,
        name: String,
        account_type: String,
        opening_balance: i64,
        now: &str,
    ) -> (r: Result<Account, LedgerError>)
        requires
            old(self)@.wf(),
        ensures
            final(self)@.wf(),
            outcome(
                old(self)@,
                final(self)@,
                old(self)@.add_account(
                    container_id,
                    name@,
                    account_type@,
                    opening_balance,
                    now@,
                ),
                r,
            ),
            r matches Ok(row) ==> row@ == old(self)@.new_account(
                container_id,
                name@,
                account_type@,
                opening_balance,
                now@,
            ),
    {
        if first_place(&self.containers, &ContainerSelector::Is(container_id)).is_none() {
            return Err(LedgerError::NotFound);
        }
        let clean_name = trim_text(name.as_str());
        let clean_type = trim_text(account_type.as_str());
        let taken = AccountSelector::NamedIn(clean_name.clone(), container_id);
        if first_place(&self.accounts, &taken).is_some() {
            return Err(LedgerError::Storage(StorageFault::Conflict));
        }
        if self.last_account_id == i64::MAX {
            return Err(LedgerError::Storage(StorageFault::Exhausted));
        }
        proof {
            add_account_keeps_wf(
                self@,
                container_id,
                name@,
                account_type@,
                opening_balance,
                now@,
            );
        }
        let id: i64 = self.last_account_id + 1;
        let row = Account {
            id,
            name: clean_name,
            account_type: clean_type,
            opening_balance,
            container_id,
            created_at: now.to_owned(),
        };
        let copy = row.copy_row();
        let ghost before = views_of(self.accounts@);
        self.accounts.push(row);
        self.last_account_id = id;
        assert(views_of(self.accounts@) =~= before.push(copy@));
        Ok(copy)
    }

    /// Creates an account in `container`, stamped with the local time, and
    /// returns its row. Name and type are trimmed.
    pub fn add_account(
        &mut self,
        container_id: i64,
        name: String,
        account_type: String,
        opening_balance: i64,
    ) -> (r: Result<Account, LedgerError>)
        requires
            old(self)@.wf(),
        ensures
            final(self)@.wf(),
            exists|now: Timestamp|
                now.is_valid() && outcome(
                    old(self)@,
                    final(self)@,
                    #[trigger] old(self)@.add_account(
                        container_id,
                        name@,
                        account_type@,
                        opening_balance,
                        timestamp_text(now),
                    ),
                    r,
                ) && (r matches Ok(row) ==> row@ == old(self)@.new_account(
                    container_id,
                    name@,
                    account_type@,
                    opening_balance,
                    timestamp_text(now),
                )),
    {
        let now = Timestamp::now();
        let text = now.text();
        self.add_account_at(container_id, name, account_type, opening_balance, text.as_str())
    }

    /// Gives account `id` the trimmed name and the opening balance, and
    /// returns its row. Its type and its container stay.
    pub fn update_account(&mut self, id: i64, name: String, opening_balance: i64) -> (r: Result<
        Account,
        LedgerError,
    >)
        requires
            old(self)@.wf(),
        ensures
            final(self)@.wf(),
            outcome(
                old(self)@,
                final(self)@,
                old(self)@.update_account(id, name@, opening_balance),
                r,
            ),
            r matches Ok(row) ==> row@.id == id && row@.name == trimmed(name@)
                && row@.opening_balance == opening_balance && count_where(
                final(self)@.accounts,
                |a: AccountView| a == row@,
            ) >= 1,
    {
        let place = match first_place(&self.accounts, &AccountSelector::Is(id)) {
            Some(i) => i,
            None => {
                return Err(LedgerError::NotFound);
            },
        };
        let ghost before = views_of(self.accounts@);
        proof {
            assert(before[place as int].id == id);
            container_of_row(self@, place as int);
        }
        let trimmed_name = trim_text(name.as_str());
        let container_id: i64 = self.accounts[place].container_id;
        let taken = AccountSelector::OtherNamedIn(id, trimmed_name.clone(), container_id);
        if first_place(&self.accounts, &taken).is_some() {
            return Err(LedgerError::Storage(StorageFault::Conflict));
        }
        proof {
            update_account_keeps_wf(self@, id, name@, opening_balance);
        }
        let row = Account {
            id,
            name: trimmed_name,
            account_type: self.accounts[place].account_type.clone(),
            opening_balance,
            container_id,
            created_at: self.accounts[place].created_at.clone(),
        };
        let copy = row.copy_row();
        self.accounts.set(place, row);
        proof {
            let after = views_of(self.accounts@);
            let revised = before.map_values(revise_in(id, trimmed(name@), opening_balance));
            assert forall|k: int| 0 <= k < after.len() implies after[k] == revised[k] by {
                if k != place {
                    if before[k].id == id {
                        ascending_distinct(before, account_id(), k, place as int);
                    }
                }
            }
            assert(after =~= revised);
            count_has(after, |a: AccountView| a == copy@, place as int);
        }
        Ok(copy)
    }

    /// Deletes account `id`. Its entries stay, without their reference to it.
    pub fn delete_account(&mut self, id: i64)
        requires
            old(self)@.wf(),
        ensures
            final(self)@.wf(),
            final(self)@ == old(self)@.delete_account(id),
    {
        proof {
            delete_account_keeps_wf(self@, id);
        }
        self.transactions = cleared_entries(&self.transactions, id);
        self.accounts = kept_rows(&self.accounts, &AccountSelector::IsNot(id));
    }

    /// The accounts of `container`, by name.
    pub fn get_accounts(&self, container_id: i64) -> (r: Vec<Account>)
        ensures
            views_of(r@) == self@.listed_accounts(container_id),
    {
        let own = kept_rows(&self.accounts, &AccountSelector::In(container_id));
        sorted_rows(&own)
    }
}

} // verus!
