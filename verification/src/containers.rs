//! Containers: creating, renaming, deleting and listing them.

use crate::calendar::{timestamp_text, Timestamp};
use crate::error::{LedgerError, StorageFault};
use crate::ledger::{
    account_id, account_outside, accounts_carry_over, categories_carry_over, container_default,
    container_id, container_is, container_is_not, container_named, entries_carry_over, entry_id,
    entry_outside, leg_of, outcome, Ledger,
};
use crate::model::{Container, ContainerView};
use crate::order::{row_order, sorted_rows, stable_sorted, views_of, Row};
use crate::select::{first_place, kept_rows};
use crate::selectors::{AccountSelector, ContainerSelector, EntrySelector};
use crate::seqs::{
    ascending, ascending_distinct, count_has, count_is_zero, count_keep_all, count_keep_none,
    count_map, count_where, keep_ascending, keep_where, kept_is_member,
};
use crate::store::Database;
use vstd::prelude::*;

verus! {

/// The containers other than `id` that are named `name`.
pub open spec fn other_container_named(id: i64, name: Seq<char>) -> spec_fn(ContainerView) -> bool {
    |c: ContainerView| c.id != id && c.name == name
}

/// The container `id`, if it is a default one.
pub open spec fn default_container_is(id: i64) -> spec_fn(ContainerView) -> bool {
    |c: ContainerView| c.id == id && c.is_default
}

/// Gives the container `id` the name `name` and leaves the others as they are.
pub open spec fn rename_in(id: i64, name: Seq<char>) -> spec_fn(ContainerView) -> ContainerView {
    |c: ContainerView|
        if c.id == id {
            ContainerView { name: name, ..c }
        } else {
            c
        }
}

impl Ledger {
    /// The row that a new container named `name` gets at the moment `now`.
    pub open spec fn new_container(self, name: Seq<char>, now: Seq<char>) -> ContainerView {
        ContainerView {
            id: (self.last_container_id + 1) as i64,
            name: name,
            created_at: now,
            is_default: false,
        }
    }

    /// The ledger with a new container named `name`. It fails where the name
    /// is in use, or where no identifier is left.
    pub open spec fn add_container(self, name: Seq<char>, now: Seq<char>) -> Result<
        Ledger,
        LedgerError,
    > {
        if count_where(self.containers, container_named(name)) >= 1 {
            Err(LedgerError::Storage(StorageFault::Conflict))
        } else if self.last_container_id == i64::MAX {
            Err(LedgerError::Storage(StorageFault::Exhausted))
        } else {
            Ok(
                Ledger {
                    containers: self.containers.push(self.new_container(name, now)),
                    last_container_id: (self.last_container_id + 1) as i64,
                    ..self
                },
            )
        }
    }

    /// The ledger with container `id` renamed to `name`. It fails where there
    /// is no such container, or where another container has the name.
    pub open spec fn update_container(self, id: i64, name: Seq<char>) -> Result<
        Ledger,
        LedgerError,
    > {
        if !self.has_container(id) {
            Err(LedgerError::NotFound)
        } else if count_where(self.containers, other_container_named(id, name)) >= 1 {
            Err(LedgerError::Storage(StorageFault::Conflict))
        } else {
            Ok(Ledger { containers: self.containers.map_values(rename_in(id, name)), ..self })
        }
    }

    /// The ledger without container `id`, its accounts and its entries. It
    /// fails where there is no such container, or where it is the default one.
    pub open spec fn delete_container(self, id: i64) -> Result<Ledger, LedgerError> {
        if !self.has_container(id) {
            Err(LedgerError::NotFound)
        } else if count_where(self.containers, default_container_is(id)) >= 1 {
            Err(LedgerError::ProtectedEntity)
        } else {
            Ok(
                Ledger {
                    containers: keep_where(self.containers, container_is_not(id)),
                    accounts: keep_where(self.accounts, account_outside(id)),
                    transactions: keep_where(self.transactions, entry_outside(id)),
                    ..self
                },
            )
        }
    }

    /// The containers as they are listed: the default one first, then by the
    /// time they were created.
    pub open spec fn listed_containers(self) -> Seq<ContainerView> {
        stable_sorted(self.containers, row_order::<Container>())
    }
}

/// Accounts, categories and entries that are left as they are stay well
/// formed where every container that existed still exists.
pub proof fn rows_carry_over(a: Ledger, b: Ledger)
    requires
        a.wf(),
        b.accounts == a.accounts,
        b.categories == a.categories,
        b.transactions == a.transactions,
        b.last_account_id == a.last_account_id,
        b.last_transaction_id == a.last_transaction_id,
        forall|id: i64| #[trigger] a.has_container(id) ==> b.has_container(id),
    ensures
        b.accounts_wf(),
        b.categories_wf(),
        b.transactions_wf(),
{
    accounts_carry_over(a, b);
    categories_carry_over(a, b);
    entries_carry_over(a, b);
}

/// Adding a container keeps the invariant.
pub proof fn add_container_keeps_wf(a: Ledger, name: Seq<char>, now: Seq<char>)
    requires
        a.wf(),
        a.add_container(name, now) is Ok,
    ensures
        a.add_container(name, now)->Ok_0.wf(),
{
    let b = a.add_container(name, now)->Ok_0;
    let row = a.new_container(name, now);
    let c = a.containers;
    let d = b.containers;
    assert(d.drop_last() =~= c);
    count_is_zero(c, container_named(name));
    assert forall|i: int| 0 <= i < d.len() implies 1 <= (#[trigger] d[i]).id
        <= b.last_container_id by {
        if i < c.len() {
            assert(d[i] == c[i]);
        }
    }
    assert(ascending(d, container_id())) by {
        assert forall|i: int, j: int|
            #![trigger d[i], d[j]]
            0 <= i < j < d.len() implies container_id()(d[i]) < container_id()(d[j]) by {
            assert(d[i] == c[i]);
            if j < c.len() {
                assert(d[j] == c[j]);
            }
        }
    }
    assert forall|i: int, j: int|
        #![trigger d[i], d[j]]
        0 <= i < d.len() && 0 <= j < d.len() && d[i].id != d[j].id implies d[i].name
        != d[j].name by {
        if i < c.len() {
            assert(d[i] == c[i]);
        }
        if j < c.len() {
            assert(d[j] == c[j]);
        }
    }
    assert forall|id: i64| #[trigger] a.has_container(id) implies b.has_container(id) by {}
    rows_carry_over(a, b);
}

/// Renaming a container keeps the invariant.
pub proof fn update_container_keeps_wf(a: Ledger, id: i64, name: Seq<char>)
    requires
        a.wf(),
        a.update_container(id, name) is Ok,
    ensures
        a.update_container(id, name)->Ok_0.wf(),
{
    let b = a.update_container(id, name)->Ok_0;
    let c = a.containers;
    let d = b.containers;
    let g = rename_in(id, name);
    count_is_zero(c, other_container_named(id, name));
    assert(ascending(d, container_id())) by {
        assert forall|i: int, j: int|
            #![trigger d[i], d[j]]
            0 <= i < j < d.len() implies container_id()(d[i]) < container_id()(d[j]) by {
            assert(container_id()(c[i]) < container_id()(c[j]));
        }
    }
    assert forall|i: int| 0 <= i < d.len() implies 1 <= (#[trigger] d[i]).id
        <= b.last_container_id by {
        assert(d[i].id == c[i].id);
    }
    assert forall|i: int, j: int|
        #![trigger d[i], d[j]]
        0 <= i < d.len() && 0 <= j < d.len() && d[i].id != d[j].id implies d[i].name
        != d[j].name by {
        assert(d[i].id == c[i].id && d[j].id == c[j].id);
        assert(c[i].name != c[j].name);
        assert(!other_container_named(id, name)(c[i]));
        assert(!other_container_named(id, name)(c[j]));
    }
    count_map(c, g, container_default(), container_default());
    assert forall|x: i64| #[trigger] a.has_container(x) implies b.has_container(x) by {
        count_map(c, g, container_is(x), container_is(x));
    }
    rows_carry_over(a, b);
}

/// Deleting a container keeps the invariant.
pub proof fn delete_container_keeps_wf(a: Ledger, id: i64)
    requires
        a.wf(),
        a.delete_container(id) is Ok,
    ensures
        a.delete_container(id)->Ok_0.wf(),
{
    let b = a.delete_container(id)->Ok_0;
    let c = a.containers;
    let d = b.containers;
    let keep_c = container_is_not(id);
    // containers
    keep_ascending(c, keep_c, container_id());
    assert forall|i: int| 0 <= i < d.len() implies 1 <= (#[trigger] d[i]).id
        <= b.last_container_id by {
        let k = kept_is_member(c, keep_c, i);
    }
    assert forall|i: int, j: int|
        #![trigger d[i], d[j]]
        0 <= i < d.len() && 0 <= j < d.len() && d[i].id != d[j].id implies d[i].name
        != d[j].name by {
        let k = kept_is_member(c, keep_c, i);
        let m = kept_is_member(c, keep_c, j);
        assert(c[k].name != c[m].name);
    }
    count_is_zero(c, default_container_is(id));
    count_keep_all(c, keep_c, container_default());
    assert forall|x: i64| x != id && #[trigger] a.has_container(x) implies b.has_container(
        x,
    ) by {
        count_keep_all(c, keep_c, container_is(x));
    }
    // accounts
    let keep_a = account_outside(id);
    keep_ascending(a.accounts, keep_a, account_id());
    assert forall|i: int| 0 <= i < b.accounts.len() implies {
        &&& 1 <= (#[trigger] b.accounts[i]).id <= b.last_account_id
        &&& b.has_container(b.accounts[i].container_id)
    } by {
        let k = kept_is_member(a.accounts, keep_a, i);
        assert(a.has_container(a.accounts[k].container_id));
    }
    assert forall|i: int, j: int|
        #![trigger b.accounts[i], b.accounts[j]]
        0 <= i < b.accounts.len() && 0 <= j < b.accounts.len() && b.accounts[i].id
            != b.accounts[j].id implies !(b.accounts[i].name == b.accounts[j].name
        && b.accounts[i].container_id == b.accounts[j].container_id) by {
        let k = kept_is_member(a.accounts, keep_a, i);
        let m = kept_is_member(a.accounts, keep_a, j);
        assert(!(a.accounts[k].name == a.accounts[m].name && a.accounts[k].container_id
            == a.accounts[m].container_id));
    }
    // categories
    assert forall|name: Seq<char>| #[trigger] b.name_count(name) <= 1 by {
        assert(a.name_count(name) <= 1);
    }
    // entries
    let t = a.transactions;
    let u = b.transactions;
    let keep_t = entry_outside(id);
    keep_ascending(t, keep_t, entry_id());
    assert forall|i: int| 0 <= i < u.len() implies {
        &&& 1 <= (#[trigger] u[i]).id <= b.last_transaction_id
        &&& u[i].transfer_id >= 0
        &&& b.has_container(u[i].container_id)
    } by {
        let k = kept_is_member(t, keep_t, i);
        assert(a.has_container(t[k].container_id));
    }
    assert forall|i: int, j: int|
        #![trigger u[i], u[j]]
        0 <= i < u.len() && 0 <= j < u.len() && u[i].id != u[j].id && u[i].transfer_id != 0
            && u[i].transfer_id == u[j].transfer_id implies crate::ledger::legs_pair(
        u[i],
        u[j],
    ) by {
        let k = kept_is_member(t, keep_t, i);
        let m = kept_is_member(t, keep_t, j);
        assert(crate::ledger::legs_pair(t[k], t[m]));
    }
    assert forall|transfer: i64| transfer != 0 implies #[trigger] b.leg_count(transfer) == 0
        || b.leg_count(transfer) == 2 by {
        assert(a.leg_count(transfer) == 0 || a.leg_count(transfer) == 2);
        legs_share_container(a, transfer);
        if exists|i: int|
            0 <= i < t.len() && (#[trigger] t[i]).transfer_id == transfer && t[i].container_id
                == id {
            count_keep_none(t, keep_t, leg_of(transfer));
        } else {
            count_keep_all(t, keep_t, leg_of(transfer));
        }
    }
}

/// All the legs of one transfer lie in one container.
pub proof fn legs_share_container(a: Ledger, transfer: i64)
    requires
        a.wf(),
        transfer != 0,
    ensures
        forall|i: int, j: int|
            #![trigger a.transactions[i], a.transactions[j]]
            0 <= i < a.transactions.len() && 0 <= j < a.transactions.len()
                && a.transactions[i].transfer_id == transfer && a.transactions[j].transfer_id
                == transfer ==> a.transactions[i].container_id == a.transactions[j].container_id,
{
    let t = a.transactions;
    assert forall|i: int, j: int|
        #![trigger t[i], t[j]]
        0 <= i < t.len() && 0 <= j < t.len() && t[i].transfer_id == transfer && t[j].transfer_id
            == transfer implies t[i].container_id == t[j].container_id by {
        if t[i].id != t[j].id {
            assert(crate::ledger::legs_pair(t[i], t[j]));
        } else {
            ascending_distinct(t, entry_id(), i, j);
        }
    }
}

impl Database {
    /// Creates a container named `name` at the moment `now`, and returns its
    /// row.
    pub fn add_container_at(&mut self, name: String, now: &str) -> (r: Result<
        Container,
        LedgerError,
    >)
        requires
            old(self)@.wf(),
        ensures
            final(self)@.wf(),
            outcome(old(self)@, final(self)@, old(self)@.add_container(name@, now@), r),
            r matches Ok(row) ==> row@ == old(self)@.new_container(name@, now@),
    {
        let taken = ContainerSelector::Named(name.clone());
        if first_place(&self.containers, &taken).is_some() {
            return Err(LedgerError::Storage(StorageFault::Conflict));
        }
        if self.last_container_id == i64::MAX {
            return Err(LedgerError::Storage(StorageFault::Exhausted));
        }
        proof {
            add_container_keeps_wf(self@, name@, now@);
        }
        let id: i64 = self.last_container_id + 1;
        let row = Container { id, name, created_at: now.to_owned(), is_default: false };
        let copy = row.copy_row();
        let ghost before = views_of(self.containers@);
        self.containers.push(row);
        self.last_container_id = id;
        assert(views_of(self.containers@) =~= before.push(copy@));
        Ok(copy)
    }

    /// Creates a container named `name`, stamped with the local time, and
    /// returns its row.
    pub fn add_container(&mut self, name: String) -> (r: Result<Container, LedgerError>)
        requires
            old(self)@.wf(),
        ensures
            final(self)@.wf(),
            exists|now: Timestamp|
                now.is_valid() && outcome(
                    old(self)@,
                    final(self)@,
                    #[trigger] old(self)@.add_container(name@, timestamp_text(now)),
                    r,
                ) && (r matches Ok(row) ==> row@ == old(self)@.new_container(
                    name@,
                    timestamp_text(now),
                )),
    {
        let now = Timestamp::now();
        let text = now.text();
        self.add_container_at(name, text.as_str())
    }

    /// Renames container `id`, and returns its row.
    pub fn update_container(&mut self, id: i64, name: String) -> (r: Result<
        Container,
        LedgerError,
    >)
        requires
            old(self)@.wf(),
        ensures
            final(self)@.wf(),
            outcome(old(self)@, final(self)@, old(self)@.update_container(id, name@), r),
            r matches Ok(row) ==> row@.id == id && row@.name == name@ && count_where(
                final(self)@.containers,
                |c: ContainerView| c == row@,
            ) >= 1,
    {
        let place = match first_place(&self.containers, &ContainerSelector::Is(id)) {
            Some(i) => i,
            None => {
                return Err(LedgerError::NotFound);
            },
        };
        let taken = ContainerSelector::OtherNamed(id, name.clone());
        if first_place(&self.containers, &taken).is_some() {
            return Err(LedgerError::Storage(StorageFault::Conflict));
        }
        proof {
            update_container_keeps_wf(self@, id, name@);
        }
        let ghost before = views_of(self.containers@);
        let row = Container {
            id,
            name,
            created_at: self.containers[place].created_at.clone(),
            is_default: self.containers[place].is_default,
        };
        let copy = row.copy_row();
        self.containers.set(place, row);
        proof {
            let after = views_of(self.containers@);
            let renamed = before.map_values(rename_in(id, name@));
            assert(before[place as int].id == id);
            assert forall|k: int| 0 <= k < after.len() implies after[k] == renamed[k] by {
                if k != place {
                    if before[k].id == id {
                        ascending_distinct(before, container_id(), k, place as int);
                    }
                }
            }
            assert(after =~= renamed);
            count_has(after, |c: ContainerView| c == copy@, place as int);
        }
        Ok(copy)
    }

    /// Deletes container `id` with its accounts and its entries. The default
    /// container cannot be deleted.
    pub fn delete_container(&mut self, id: i64) -> (r: Result<(), LedgerError>)
        requires
            old(self)@.wf(),
        ensures
            final(self)@.wf(),
            outcome(old(self)@, final(self)@, old(self)@.delete_container(id), r),
    {
        if first_place(&self.containers, &ContainerSelector::Is(id)).is_none() {
            return Err(LedgerError::NotFound);
        }
        if first_place(&self.containers, &ContainerSelector::DefaultIs(id)).is_some() {
            return Err(LedgerError::ProtectedEntity);
        }
        proof {
            delete_container_keeps_wf(self@, id);
        }
        self.containers = kept_rows(&self.containers, &ContainerSelector::IsNot(id));
        self.accounts = kept_rows(&self.accounts, &AccountSelector::Outside(id));
        self.transactions = kept_rows(&self.transactions, &EntrySelector::Outside(id));
        Ok(())
    }

    /// The containers: the default one first, then by the time they were
    /// created.
    pub fn get_containers(&self) -> (r: Vec<Container>)
        ensures
            views_of(r@) == self@.listed_containers(),
    {
        sorted_rows(&self.containers)
    }
}

} // verus!
