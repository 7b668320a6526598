//! The ledger as a mathematical value: four sequences of rows and the last
//! identifiers given out, with the invariant that every operation keeps.

use crate::error::LedgerError;
use crate::model::{AccountView, CategoryView, ContainerView, TransactionView};
use crate::seqs::{ascending, count_where};
use crate::text::text_lt;
use vstd::prelude::*;

verus! {

/// The state of a ledger store.
pub struct Ledger {
    pub containers: Seq<ContainerView>,
    pub accounts: Seq<AccountView>,
    pub categories: Seq<CategoryView>,
    pub transactions: Seq<TransactionView>,
    pub last_container_id: i64,
    pub last_account_id: i64,
    pub last_transaction_id: i64,
}

/// The container with identifier `id`.
pub open spec fn container_is(id: i64) -> spec_fn(ContainerView) -> bool {
    |c: ContainerView| c.id == id
}

/// The containers other than the one with identifier `id`.
pub open spec fn container_is_not(id: i64) -> spec_fn(ContainerView) -> bool {
    |c: ContainerView| c.id != id
}

/// The containers named `name`.
pub open spec fn container_named(name: Seq<char>) -> spec_fn(ContainerView) -> bool {
    |c: ContainerView| c.name == name
}

/// The containers marked as default.
pub open spec fn container_default() -> spec_fn(ContainerView) -> bool {
    |c: ContainerView| c.is_default
}

/// The identifier of a container.
pub open spec fn container_id() -> spec_fn(ContainerView) -> int {
    |c: ContainerView| c.id as int
}

/// The account with identifier `id`.
pub open spec fn account_is(id: i64) -> spec_fn(AccountView) -> bool {
    |a: AccountView| a.id == id
}

/// The accounts other than the one with identifier `id`.
pub open spec fn account_is_not(id: i64) -> spec_fn(AccountView) -> bool {
    |a: AccountView| a.id != id
}

/// The accounts of container `container`.
pub open spec fn account_in(container: i64) -> spec_fn(AccountView) -> bool {
    |a: AccountView| a.container_id == container
}

/// The accounts outside container `container`.
pub open spec fn account_outside(container: i64) -> spec_fn(AccountView) -> bool {
    |a: AccountView| a.container_id != container
}

/// The accounts named `name` in container `container`.
pub open spec fn account_named_in(name: Seq<char>, container: i64) -> spec_fn(AccountView) -> bool {
    |a: AccountView| a.name == name && a.container_id == container
}

/// The identifier of an account.
pub open spec fn account_id() -> spec_fn(AccountView) -> int {
    |a: AccountView| a.id as int
}

/// The categories named `name`.
pub open spec fn category_named(name: Seq<char>) -> spec_fn(CategoryView) -> bool {
    |c: CategoryView| c.name == name
}

/// The categories not named `name`.
pub open spec fn category_not_named(name: Seq<char>) -> spec_fn(CategoryView) -> bool {
    |c: CategoryView| c.name != name
}

/// The entry with identifier `id`.
pub open spec fn entry_is(id: i64) -> spec_fn(TransactionView) -> bool {
    |t: TransactionView| t.id == id
}

/// The entries other than the one with identifier `id`.
pub open spec fn entry_is_not(id: i64) -> spec_fn(TransactionView) -> bool {
    |t: TransactionView| t.id != id
}

/// The entries of container `container`.
pub open spec fn entry_in(container: i64) -> spec_fn(TransactionView) -> bool {
    |t: TransactionView| t.container_id == container
}

/// The entries outside container `container`.
pub open spec fn entry_outside(container: i64) -> spec_fn(TransactionView) -> bool {
    |t: TransactionView| t.container_id != container
}

/// The entries that carry the transfer identifier `transfer`.
pub open spec fn leg_of(transfer: i64) -> spec_fn(TransactionView) -> bool {
    |t: TransactionView| t.transfer_id == transfer
}

/// The entries that do not carry the transfer identifier `transfer`.
pub open spec fn not_leg_of(transfer: i64) -> spec_fn(TransactionView) -> bool {
    |t: TransactionView| t.transfer_id != transfer
}

/// The entries that refer to account `account`.
pub open spec fn entry_on(account: i64) -> spec_fn(TransactionView) -> bool {
    |t: TransactionView| t.account_id == account
}

/// The entries of container `container` that refer to account `account`.
pub open spec fn entry_in_on(container: i64, account: i64) -> spec_fn(TransactionView) -> bool {
    |t: TransactionView| t.container_id == container && t.account_id == account
}

/// The entries of container `container` whose timestamp begins with `month`.
pub open spec fn entry_in_month(container: i64, month: Seq<char>) -> spec_fn(
    TransactionView,
) -> bool {
    |t: TransactionView| t.container_id == container && month.is_prefix_of(t.date)
}

/// The entry with identifier `id`, if it is a leg of a transfer.
pub open spec fn leg_with_id(id: i64) -> spec_fn(TransactionView) -> bool {
    |t: TransactionView| t.id == id && t.transfer_id != 0
}

/// The entries of container `container` that are no legs of a transfer.
pub open spec fn plain_in(container: i64) -> spec_fn(TransactionView) -> bool {
    |t: TransactionView| t.container_id == container && t.transfer_id == 0
}

/// The entries of container `container` that are no legs of a transfer and
/// whose timestamp begins with `month`.
pub open spec fn plain_in_month(container: i64, month: Seq<char>) -> spec_fn(
    TransactionView,
) -> bool {
    |t: TransactionView|
        t.container_id == container && t.transfer_id == 0 && month.is_prefix_of(t.date)
}

/// The entries that refer to account `account` and whose timestamp is `end`
/// or comes before it.
pub open spec fn entry_on_until(account: i64, end: Seq<char>) -> spec_fn(TransactionView) -> bool {
    |t: TransactionView| t.account_id == account && !text_lt(end, t.date)
}

/// The identifier of an entry.
pub open spec fn entry_id() -> spec_fn(TransactionView) -> int {
    |t: TransactionView| t.id as int
}

/// The amount of an entry.
pub open spec fn amount_of() -> spec_fn(TransactionView) -> int {
    |t: TransactionView| t.amount as int
}

/// What holds of two entries that are the two legs of one transfer: they lie
/// in one container, their amounts are opposite and not zero, each names
/// another counterpart, and each still refers to the account that the other
/// names as counterpart, unless that account was deleted.
pub open spec fn legs_pair(a: TransactionView, b: TransactionView) -> bool {
    &&& a.container_id == b.container_id
    &&& a.amount + b.amount == 0
    &&& a.amount != 0
    &&& a.transfer_account_id != b.transfer_account_id
    &&& (a.account_id == 0 || a.account_id == b.transfer_account_id)
    &&& (b.account_id == 0 || b.account_id == a.transfer_account_id)
}

/// The largest transfer identifier among `s`, or 0 where there is none.
pub open spec fn max_transfer_id(s: Seq<TransactionView>) -> int
    decreases s.len(),
{
    if s.len() == 0 {
        0
    } else if s.last().transfer_id > max_transfer_id(s.drop_last()) {
        s.last().transfer_id as int
    } else {
        max_transfer_id(s.drop_last())
    }
}

impl Ledger {
    /// Whether a container has identifier `id`.
    pub open spec fn has_container(self, id: i64) -> bool {
        count_where(self.containers, container_is(id)) >= 1
    }

    /// How many entries carry the transfer identifier `transfer`.
    pub open spec fn leg_count(self, transfer: i64) -> nat {
        count_where(self.transactions, leg_of(transfer))
    }

    /// How many categories are named `name`.
    pub open spec fn name_count(self, name: Seq<char>) -> nat {
        count_where(self.categories, category_named(name))
    }

    /// Containers have rising identifiers that were given out, names of their
    /// own, and exactly one of them is the default.
    pub open spec fn containers_wf(self) -> bool {
        &&& forall|i: int|
            0 <= i < self.containers.len() ==> 1 <= (#[trigger] self.containers[i]).id
                <= self.last_container_id
        &&& ascending(self.containers, container_id())
        &&& forall|i: int, j: int|
            #![trigger self.containers[i], self.containers[j]]
            0 <= i < self.containers.len() && 0 <= j < self.containers.len()
                && self.containers[i].id != self.containers[j].id ==> self.containers[i].name
                != self.containers[j].name
        &&& count_where(self.containers, container_default()) == 1
        &&& 0 <= self.last_container_id
    }

    /// Accounts have rising identifiers that were given out, lie in a
    /// container that exists, and have names of their own within it.
    pub open spec fn accounts_wf(self) -> bool {
        &&& forall|i: int|
            0 <= i < self.accounts.len() ==> {
                &&& 1 <= (#[trigger] self.accounts[i]).id <= self.last_account_id
                &&& self.has_container(self.accounts[i].container_id)
            }
        &&& ascending(self.accounts, account_id())
        &&& forall|i: int, j: int|
            #![trigger self.accounts[i], self.accounts[j]]
            0 <= i < self.accounts.len() && 0 <= j < self.accounts.len() && self.accounts[i].id
                != self.accounts[j].id ==> !(self.accounts[i].name == self.accounts[j].name
                && self.accounts[i].container_id == self.accounts[j].container_id)
        &&& 0 <= self.last_account_id
    }

    /// No two categories have the same name.
    pub open spec fn categories_wf(self) -> bool {
        forall|name: Seq<char>| #[trigger] self.name_count(name) <= 1
    }

    /// Entries have rising identifiers that were given out and lie in a
    /// container that exists; a transfer identifier in use is carried by
    /// exactly two entries, which are the two legs of one transfer.
    pub open spec fn transactions_wf(self) -> bool {
        &&& forall|i: int|
            0 <= i < self.transactions.len() ==> {
                &&& 1 <= (#[trigger] self.transactions[i]).id <= self.last_transaction_id
                &&& self.transactions[i].transfer_id >= 0
                &&& self.has_container(self.transactions[i].container_id)
            }
        &&& ascending(self.transactions, entry_id())
        &&& forall|i: int, j: int|
            #![trigger self.transactions[i], self.transactions[j]]
            0 <= i < self.transactions.len() && 0 <= j < self.transactions.len()
                && self.transactions[i].id != self.transactions[j].id
                && self.transactions[i].transfer_id != 0 && self.transactions[i].transfer_id
                == self.transactions[j].transfer_id ==> legs_pair(
                self.transactions[i],
                self.transactions[j],
            )
        &&& forall|transfer: i64|
            transfer != 0 ==> #[trigger] self.leg_count(transfer) == 0 || self.leg_count(transfer)
                == 2
        &&& 0 <= self.last_transaction_id
    }

    /// The invariant of the store.
    pub open spec fn wf(self) -> bool {
        &&& self.containers_wf()
        &&& self.accounts_wf()
        &&& self.categories_wf()
        &&& self.transactions_wf()
    }
}

/// Whether an operation did what the ledger's rule says:
/// on success the store is the new ledger, on failure it is unchanged and the
/// failure is the rule's.
pub open spec fn outcome<T>(
    before: Ledger,
    after: Ledger,
    rule: Result<Ledger, LedgerError>,
    r: Result<T, LedgerError>,
) -> bool {
    match r {
        Ok(_) => rule == Ok::<Ledger, LedgerError>(after),
        Err(e) => rule == Err::<Ledger, LedgerError>(e) && after == before,
    }
}

/// Containers that are left as they are stay well formed.
pub proof fn containers_carry_over(a: Ledger, b: Ledger)
    requires
        a.containers_wf(),
        b.containers == a.containers,
        b.last_container_id == a.last_container_id,
    ensures
        b.containers_wf(),
        forall|id: i64| #[trigger] a.has_container(id) ==> b.has_container(id),
{
}

/// Accounts that are left as they are stay well formed where every
/// container that existed still exists.
pub proof fn accounts_carry_over(a: Ledger, b: Ledger)
    requires
        a.accounts_wf(),
        b.accounts == a.accounts,
        b.last_account_id == a.last_account_id,
        forall|id: i64| #[trigger] a.has_container(id) ==> b.has_container(id),
    ensures
        b.accounts_wf(),
{
    assert forall|i: int| 0 <= i < b.accounts.len() implies b.has_container(
        (#[trigger] b.accounts[i]).container_id,
    ) by {
        assert(a.has_container(a.accounts[i].container_id));
    }
}

/// Categories that are left as they are stay well formed.
pub proof fn categories_carry_over(a: Ledger, b: Ledger)
    requires
        a.categories_wf(),
        b.categories == a.categories,
    ensures
        b.categories_wf(),
{
    assert forall|name: Seq<char>| #[trigger] b.name_count(name) <= 1 by {
        assert(a.name_count(name) <= 1);
    }
}

/// Entries that are left as they are stay well formed where every container
/// that existed still exists.
pub proof fn entries_carry_over(a: Ledger, b: Ledger)
    requires
        a.transactions_wf(),
        b.transactions == a.transactions,
        b.last_transaction_id == a.last_transaction_id,
        forall|id: i64| #[trigger] a.has_container(id) ==> b.has_container(id),
    ensures
        b.transactions_wf(),
{
    assert forall|i: int| 0 <= i < b.transactions.len() implies b.has_container(
        (#[trigger] b.transactions[i]).container_id,
    ) by {
        assert(a.has_container(a.transactions[i].container_id));
    }
    assert forall|transfer: i64| transfer != 0 implies #[trigger] b.leg_count(transfer) == 0
        || b.leg_count(transfer) == 2 by {
        assert(a.leg_count(transfer) == 0 || a.leg_count(transfer) == 2);
    }
}

/// No entry carries a transfer identifier above the largest one.
pub proof fn max_transfer_bounds(s: Seq<TransactionView>, i: int)
    requires
        0 <= i < s.len(),
    ensures
        s[i].transfer_id <= max_transfer_id(s),
        max_transfer_id(s) >= 0,
    decreases s.len(),
{
    let t = s.drop_last();
    if i < s.len() - 1 {
        max_transfer_bounds(t, i);
        assert(t[i] == s[i]);
    } else if t.len() > 0 {
        max_transfer_bounds(t, 0);
    }
}

/// The largest transfer identifier is never negative.
pub proof fn max_transfer_nonneg(s: Seq<TransactionView>)
    ensures
        max_transfer_id(s) >= 0,
    decreases s.len(),
{
    if s.len() > 0 {
        max_transfer_nonneg(s.drop_last());
    }
}

} // verus!
