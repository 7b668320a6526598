//! Taking a store apart into its rows and putting one together from rows:
//! the rows are held to the invariant before a store is made of them.

use crate::error::{LedgerError, StorageFault};
use crate::ledger::{
    account_id, category_named, container_default, container_id, entry_id, leg_of, legs_pair,
    Ledger,
};
use crate::model::{
    Account, AccountView, Category, CategoryView, Container, ContainerView, Transaction,
    TransactionView,
};
use crate::order::{views_of, Row};
use crate::select::{count_rows, first_place};
use crate::selectors::{ContainerSelector, EntrySelector};
use crate::seqs::{ascending, count_has, count_two, count_where};
use crate::store::{distinct_names_count_once, seed_categories, Database};
use vstd::prelude::*;

verus! {

/// A row that has an identifier.
pub trait Identified: View {
    /// The identifier of a row.
    spec fn id_of(v: Self::V) -> int;

    /// The identifier of this row.
    fn row_id(&self) -> (id: i64)
        ensures
            id == Self::id_of(self@),
    ;
}

impl Identified for Container {
    open spec fn id_of(v: ContainerView) -> int {
        v.id as int
    }

    fn row_id(&self) -> (id: i64) {
        self.id
    }
}

impl Identified for Account {
    open spec fn id_of(v: AccountView) -> int {
        v.id as int
    }

    fn row_id(&self) -> (id: i64) {
        self.id
    }
}

impl Identified for Transaction {
    open spec fn id_of(v: TransactionView) -> int {
        v.id as int
    }

    fn row_id(&self) -> (id: i64) {
        self.id
    }
}

/// Rows of which two may stand in each other's way.
pub trait Rival: View {
    /// Whether two rows cannot both be in one store.
    spec fn clash(a: Self::V, b: Self::V) -> bool;

    /// Whether this row and `other` cannot both be in one store.
    fn clashes(&self, other: &Self) -> (r: bool)
        ensures
            r == Self::clash(self@, other@),
    ;
}

impl Rival for Container {
    /// Two containers clash where they have the same name.
    open spec fn clash(a: ContainerView, b: ContainerView) -> bool {
        a.name == b.name
    }

    fn clashes(&self, other: &Container) -> (r: bool) {
        self.name == other.name
    }
}

impl Rival for Account {
    /// Two accounts clash where they have the same name in one container.
    open spec fn clash(a: AccountView, b: AccountView) -> bool {
        a.name == b.name && a.container_id == b.container_id
    }

    fn clashes(&self, other: &Account) -> (r: bool) {
        self.name == other.name && self.container_id == other.container_id
    }
}

impl Rival for Category {
    /// Two categories clash where they have the same name.
    open spec fn clash(a: CategoryView, b: CategoryView) -> bool {
        a.name == b.name
    }

    fn clashes(&self, other: &Category) -> (r: bool) {
        self.name == other.name
    }
}

impl Rival for Transaction {
    /// Two entries clash where they carry one transfer identifier and are
    /// not the two legs of one transfer.
    open spec fn clash(a: TransactionView, b: TransactionView) -> bool {
        a.transfer_id != 0 && a.transfer_id == b.transfer_id && !legs_pair(a, b)
    }

    fn clashes(&self, other: &Transaction) -> (r: bool) {
        self.transfer_id != 0 && self.transfer_id == other.transfer_id && !(self.container_id
            == other.container_id && self.amount as i128 + other.amount as i128 == 0
            && self.amount != 0 && self.transfer_account_id != other.transfer_account_id && (
        self.account_id == 0 || self.account_id == other.transfer_account_id) && (other.account_id
            == 0 || other.account_id == self.transfer_account_id))
    }
}

/// Whether the identifiers rise strictly along the rows and lie between 1
/// and `last`.
pub open spec fn ids_in_order<T: Identified>(rows: Seq<T::V>, last: i64) -> bool {
    &&& forall|i: int| 0 <= i < rows.len() ==> 1 <= T::id_of(#[trigger] rows[i]) <= last
    &&& forall|i: int, j: int|
        #![trigger rows[i], rows[j]]
        0 <= i < j < rows.len() ==> T::id_of(rows[i]) < T::id_of(rows[j])
}

/// Whether no two rows clash.
pub open spec fn no_clash<T: Rival>(rows: Seq<T::V>) -> bool {
    forall|i: int, j: int|
        #![trigger rows[i], rows[j]]
        0 <= i < j < rows.len() ==> !T::clash(rows[i], rows[j])
}

/// Whether the identifiers rise strictly along the rows and lie between 1
/// and `last`.
fn check_ids<T: Identified>(rows: &Vec<T>, last: i64) -> (ok: bool)
    ensures
        ok == ids_in_order::<T>(views_of(rows@), last),
{
    let ghost all = views_of(rows@);
    let mut previous: i64 = 0;
    let mut i: usize = 0;
    while i < rows.len()
        invariant
            i <= rows.len(),
            all == views_of(rows@),
            i == 0 ==> previous == 0,
            i > 0 ==> previous == T::id_of(all[i - 1]),
            forall|k: int| 0 <= k < i ==> 1 <= T::id_of(#[trigger] all[k]) <= last,
            forall|a: int, b: int|
                #![trigger all[a], all[b]]
                0 <= a < b < i ==> T::id_of(all[a]) < T::id_of(all[b]),
        decreases rows.len() - i,
    {
        let id = rows[i].row_id();
        assert(all[i as int] == rows@[i as int]@);
        if id <= previous || id > last {
            proof {
                if id > last || id < 1 {
                    assert(!(1 <= T::id_of(all[i as int]) <= last));
                } else {
                    assert(!(T::id_of(all[i - 1]) < T::id_of(all[i as int])));
                }
            }
            return false;
        }
        proof {
            assert forall|a: int, b: int|
                #![trigger all[a], all[b]]
                0 <= a < b < i + 1 implies T::id_of(all[a]) < T::id_of(all[b]) by {
                if b == i && a < i - 1 {
                    assert(T::id_of(all[a]) < T::id_of(all[i - 1]));
                }
            }
        }
        previous = id;
        i += 1;
    }
    true
}

/// Whether no two rows clash.
fn check_clashes<T: Rival>(rows: &Vec<T>) -> (ok: bool)
    ensures
        ok == no_clash::<T>(views_of(rows@)),
{
    let ghost all = views_of(rows@);
    let mut j: usize = 0;
    while j < rows.len()
        invariant
            j <= rows.len(),
            all == views_of(rows@),
            forall|a: int, b: int|
                #![trigger all[a], all[b]]
                0 <= a < b < j ==> !T::clash(all[a], all[b]),
        decreases rows.len() - j,
    {
        let mut i: usize = 0;
        while i < j
            invariant
                i <= j < rows.len(),
                all == views_of(rows@),
                forall|a: int| 0 <= a < i ==> !T::clash(#[trigger] all[a], all[j as int]),
            decreases j - i,
        {
            assert(all[i as int] == rows@[i as int]@ && all[j as int] == rows@[j as int]@);
            if rows[i].clashes(&rows[j]) {
                return false;
            }
            i += 1;
        }
        j += 1;
    }
    true
}

/// The identifier of the last row, or 0 where there is none.
pub open spec fn last_id<T: Identified>(rows: Seq<T::V>) -> int {
    if rows.len() == 0 {
        0
    } else {
        T::id_of(rows.last())
    }
}

/// Gives the category named "Income" the type `income`.
pub open spec fn income_is_income() -> spec_fn(CategoryView) -> CategoryView {
    |c: CategoryView|
        if c.name == "Income"@ {
            CategoryView { category_type: "income"@, ..c }
        } else {
            c
        }
}

impl Ledger {
    /// The ledger made of the given rows as a store starts up with them:
    /// where there is no container, the default container "Personal" is made
    /// at the moment `now`; where there is no category, the default ones are
    /// made; a category named "Income" is of type `income`. The last
    /// identifier given out in each table is that of its last row.
    pub open spec fn loaded(
        containers: Seq<ContainerView>,
        accounts: Seq<AccountView>,
        categories: Seq<CategoryView>,
        transactions: Seq<TransactionView>,
        now: Seq<char>,
    ) -> Ledger {
        let started = if containers.len() == 0 {
            Ledger::initial(now).containers
        } else {
            containers
        };
        Ledger {
            containers: started,
            accounts: accounts,
            categories: if categories.len() == 0 {
                seed_categories()
            } else {
                categories.map_values(income_is_income())
            },
            transactions: transactions,
            last_container_id: last_id::<Container>(started) as i64,
            last_account_id: last_id::<Account>(accounts) as i64,
            last_transaction_id: last_id::<Transaction>(transactions) as i64,
        }
    }

    /// The invariant, stated so that it can be checked row by row and pair
    /// by pair.
    pub open spec fn checks(self) -> bool {
        &&& 0 <= self.last_container_id
        &&& 0 <= self.last_account_id
        &&& 0 <= self.last_transaction_id
        &&& ids_in_order::<Container>(self.containers, self.last_container_id)
        &&& no_clash::<Container>(self.containers)
        &&& count_where(self.containers, container_default()) == 1
        &&& ids_in_order::<Account>(self.accounts, self.last_account_id)
        &&& no_clash::<Account>(self.accounts)
        &&& forall|i: int|
            0 <= i < self.accounts.len() ==> self.has_container(
                (#[trigger] self.accounts[i]).container_id,
            )
        &&& no_clash::<Category>(self.categories)
        &&& ids_in_order::<Transaction>(self.transactions, self.last_transaction_id)
        &&& no_clash::<Transaction>(self.transactions)
        &&& forall|i: int|
            0 <= i < self.transactions.len() ==> {
                &&& (#[trigger] self.transactions[i]).transfer_id >= 0
                &&& self.has_container(self.transactions[i].container_id)
                &&& self.transactions[i].transfer_id != 0 ==> self.leg_count(
                    self.transactions[i].transfer_id,
                ) == 2
            }
    }
}

/// The invariant holds exactly where its checks pass.
pub proof fn checks_are_the_invariant(a: Ledger)
    ensures
        a.checks() == a.wf(),
{
    let c = a.containers;
    let n = a.accounts;
    let t = a.transactions;
    let k = a.categories;
    if a.checks() {
        assert(ascending(c, container_id()));
        assert(ascending(n, account_id()));
        assert(ascending(t, entry_id()));
        assert forall|i: int, j: int|
            #![trigger c[i], c[j]]
            0 <= i < c.len() && 0 <= j < c.len() && c[i].id != c[j].id implies c[i].name
            != c[j].name by {
            if i < j {
                assert(!Container::clash(c[i], c[j]));
            } else {
                assert(!Container::clash(c[j], c[i]));
            }
        }
        assert forall|i: int, j: int|
            #![trigger n[i], n[j]]
            0 <= i < n.len() && 0 <= j < n.len() && n[i].id != n[j].id implies !(n[i].name
            == n[j].name && n[i].container_id == n[j].container_id) by {
            if i < j {
                assert(!Account::clash(n[i], n[j]));
            } else {
                assert(!Account::clash(n[j], n[i]));
            }
        }
        assert forall|name: Seq<char>| #[trigger] a.name_count(name) <= 1 by {
            assert forall|i: int, j: int|
                #![trigger k[i], k[j]]
                0 <= i < j < k.len() implies k[i].name != k[j].name by {
                assert(!Category::clash(k[i], k[j]));
            }
            distinct_names_count_once(k, name);
        }
        assert forall|i: int, j: int|
            #![trigger t[i], t[j]]
            0 <= i < t.len() && 0 <= j < t.len() && t[i].id != t[j].id && t[i].transfer_id != 0
                && t[i].transfer_id == t[j].transfer_id implies legs_pair(t[i], t[j]) by {
            if i < j {
                assert(!Transaction::clash(t[i], t[j]));
            } else {
                assert(!Transaction::clash(t[j], t[i]));
            }
        }
        assert forall|transfer: i64| transfer != 0 implies #[trigger] a.leg_count(transfer) == 0
            || a.leg_count(transfer) == 2 by {
            if a.leg_count(transfer) != 0 {
                let i = crate::seqs::count_witness(t, leg_of(transfer));
                assert(t[i].transfer_id == transfer);
            }
        }
        assert(a.wf());
    }
    if a.wf() {
        assert(ids_in_order::<Container>(c, a.last_container_id));
        assert(ids_in_order::<Account>(n, a.last_account_id));
        assert(ids_in_order::<Transaction>(t, a.last_transaction_id));
        assert forall|i: int, j: int|
            #![trigger c[i], c[j]]
            0 <= i < j < c.len() implies !Container::clash(c[i], c[j]) by {
            assert(container_id()(c[i]) < container_id()(c[j]));
        }
        assert forall|i: int, j: int|
            #![trigger n[i], n[j]]
            0 <= i < j < n.len() implies !Account::clash(n[i], n[j]) by {
            assert(account_id()(n[i]) < account_id()(n[j]));
        }
        assert forall|i: int, j: int|
            #![trigger k[i], k[j]]
            0 <= i < j < k.len() implies !Category::clash(k[i], k[j]) by {
            if k[i].name == k[j].name {
                count_two(k, category_named(k[i].name), i, j);
                assert(a.name_count(k[i].name) <= 1);
            }
        }
        assert forall|i: int, j: int|
            #![trigger t[i], t[j]]
            0 <= i < j < t.len() implies !Transaction::clash(t[i], t[j]) by {
            assert(entry_id()(t[i]) < entry_id()(t[j]));
        }
        assert forall|i: int| 0 <= i < t.len() && (#[trigger] t[i]).transfer_id
            != 0 implies a.leg_count(t[i].transfer_id) == 2 by {
            count_has(t, leg_of(t[i].transfer_id), i);
            assert(a.leg_count(t[i].transfer_id) == 0 || a.leg_count(t[i].transfer_id) == 2);
        }
        assert(a.checks());
    }
}

impl Database {
    /// Whether every account lies in a container that exists.
    fn accounts_are_housed(&self) -> (ok: bool)
        ensures
            ok == (forall|i: int|
                0 <= i < self@.accounts.len() ==> self@.has_container(
                    (#[trigger] self@.accounts[i]).container_id,
                )),
    {
        let mut i: usize = 0;
        while i < self.accounts.len()
            invariant
                i <= self.accounts.len(),
                forall|k: int|
                    0 <= k < i ==> self@.has_container((#[trigger] self@.accounts[k]).container_id),
            decreases self.accounts.len() - i,
        {
            assert(self@.accounts[i as int] == self.accounts@[i as int]@);
            let by = ContainerSelector::Is(self.accounts[i].container_id);
            if first_place(&self.containers, &by).is_none() {
                return false;
            }
            i += 1;
        }
        true
    }

    /// Whether every entry lies in a container that exists and every
    /// transfer identifier in use is carried by exactly two entries.
    fn entries_are_housed(&self) -> (ok: bool)
        ensures
            ok == (forall|i: int|
                0 <= i < self@.transactions.len() ==> {
                    &&& (#[trigger] self@.transactions[i]).transfer_id >= 0
                    &&& self@.has_container(self@.transactions[i].container_id)
                    &&& self@.transactions[i].transfer_id != 0 ==> self@.leg_count(
                        self@.transactions[i].transfer_id,
                    ) == 2
                }),
    {
        let mut i: usize = 0;
        while i < self.transactions.len()
            invariant
                i <= self.transactions.len(),
                forall|k: int|
                    0 <= k < i ==> {
                        &&& (#[trigger] self@.transactions[k]).transfer_id >= 0
                        &&& self@.has_container(self@.transactions[k].container_id)
                        &&& self@.transactions[k].transfer_id != 0 ==> self@.leg_count(
                            self@.transactions[k].transfer_id,
                        ) == 2
                    },
            decreases self.transactions.len() - i,
        {
            assert(self@.transactions[i as int] == self.transactions@[i as int]@);
            let row = &self.transactions[i];
            if row.transfer_id < 0 {
                return false;
            }
            if first_place(&self.containers, &ContainerSelector::Is(row.container_id)).is_none() {
                return false;
            }
            if row.transfer_id != 0 && count_rows(
                &self.transactions,
                &EntrySelector::LegOf(row.transfer_id),
            ) != 2 {
                return false;
            }
            i += 1;
        }
        true
    }

    /// Whether the rows of this store keep the invariant.
    pub fn is_sound(&self) -> (ok: bool)
        ensures
            ok == self@.wf(),
    {
        proof {
            checks_are_the_invariant(self@);
        }
        self.last_container_id >= 0 && self.last_account_id >= 0 && self.last_transaction_id >= 0
            && check_ids(&self.containers, self.last_container_id) && check_clashes(
            &self.containers,
        ) && count_rows(&self.containers, &ContainerSelector::AnyDefault) == 1 && check_ids(
            &self.accounts,
            self.last_account_id,
        ) && check_clashes(&self.accounts) && self.accounts_are_housed() && check_clashes(
            &self.categories,
        ) && check_ids(&self.transactions, self.last_transaction_id) && check_clashes(
            &self.transactions,
        ) && self.entries_are_housed()
    }

    /// A store made of the given rows, as it starts up with them at the
    /// moment `now`. It fails where the rows do not keep the invariant.
    pub fn restore(
        containers: Vec<Container>,
        accounts: Vec<Account>,
        categories: Vec<Category>,
        transactions: Vec<Transaction>,
        now: &str,
    ) -> (r: Result<Database, LedgerError>)
        ensures
            match r {
                Ok(db) => db@.wf() && db@ == Ledger::loaded(
                    views_of(containers@),
                    views_of(accounts@),
                    views_of(categories@),
                    views_of(transactions@),
                    now@,
                ),
                Err(e) => e == LedgerError::Storage(StorageFault::Corrupt) && !Ledger::loaded(
                    views_of(containers@),
                    views_of(accounts@),
                    views_of(categories@),
                    views_of(transactions@),
                    now@,
                ).wf(),
            },
    {
        let fresh = Database::new_at(now);
        let started = if containers.len() == 0 {
            fresh.containers
        } else {
            containers
        };
        let kinds = if categories.len() == 0 {
            fresh.categories
        } else {
            let mut kinds: Vec<Category> = Vec::new();
            let income = "Income".to_owned();
            let mut i: usize = 0;
            while i < categories.len()
                invariant
                    i <= categories.len(),
                    income@ == "Income"@,
                    kinds@.len() == i,
                    forall|k: int|
                        0 <= k < i ==> (#[trigger] kinds@[k])@ == income_is_income()(
                            categories@[k]@,
                        ),
                decreases categories.len() - i,
            {
                let mut row = categories[i].copy_row();
                if row.name == income {
                    row.category_type = "income".to_owned();
                }
                kinds.push(row);
                i += 1;
            }
            assert(views_of(kinds@) =~= views_of(categories@).map_values(income_is_income()));
            kinds
        };
        let last_container_id: i64 = if started.len() == 0 {
            0
        } else {
            started[started.len() - 1].id
        };
        let last_account_id: i64 = if accounts.len() == 0 {
            0
        } else {
            accounts[accounts.len() - 1].id
        };
        let last_transaction_id: i64 = if transactions.len() == 0 {
            0
        } else {
            transactions[transactions.len() - 1].id
        };
        let db = Database {
            containers: started,
            accounts,
            categories: kinds,
            transactions,
            last_container_id,
            last_account_id,
            last_transaction_id,
        };
        assert(db@ == Ledger::loaded(
            views_of(containers@),
            views_of(accounts@),
            views_of(categories@),
            views_of(transactions@),
            now@,
        ));
        if db.is_sound() {
            Ok(db)
        } else {
            Err(LedgerError::Storage(StorageFault::Corrupt))
        }
    }

    /// Every container, in the order of the identifiers.
    pub fn all_containers(&self) -> (r: Vec<Container>)
        ensures
            views_of(r@) == self@.containers,
    {
        copy_rows(&self.containers)
    }

    /// Every account, in the order of the identifiers.
    pub fn all_accounts(&self) -> (r: Vec<Account>)
        ensures
            views_of(r@) == self@.accounts,
    {
        copy_rows(&self.accounts)
    }

    /// Every category, in the order in which they were made.
    pub fn all_categories(&self) -> (r: Vec<Category>)
        ensures
            views_of(r@) == self@.categories,
    {
        copy_rows(&self.categories)
    }

    /// Every entry, in the order of the identifiers.
    pub fn all_transactions(&self) -> (r: Vec<Transaction>)
        ensures
            views_of(r@) == self@.transactions,
    {
        copy_rows(&self.transactions)
    }
}

/// Copies of the rows, in their order.
fn copy_rows<T: Row>(rows: &Vec<T>) -> (r: Vec<T>)
    ensures
        views_of(r@) == views_of(rows@),
{
    let mut r: Vec<T> = Vec::new();
    let mut i: usize = 0;
    while i < rows.len()
        invariant
            i <= rows.len(),
            r@.len() == i,
            forall|k: int| 0 <= k < i ==> (#[trigger] r@[k])@ == rows@[k]@,
        decreases rows.len() - i,
    {
        r.push(rows[i].copy_row());
        i += 1;
    }
    assert(views_of(r@) =~= views_of(rows@));
    r
}

} // verus!
