//! The store: the rows of a ledger held in memory, and how it starts out.

use crate::calendar::{timestamp_text, Timestamp};
use crate::ledger::{category_named, Ledger};
use crate::model::{Account, Category, CategoryView, Container, ContainerView, Transaction};
use crate::order::views_of;
use crate::seqs::{count_where, count_witness};
use vstd::prelude::*;

verus! {

/// A ledger store. It owns every container, account, category and entry;
/// nothing changes them but its operations, each of which leaves the store
/// unchanged where it fails.
pub struct Database {
    pub(crate) containers: Vec<Container>,
    pub(crate) accounts: Vec<Account>,
    pub(crate) categories: Vec<Category>,
    pub(crate) transactions: Vec<Transaction>,
    pub(crate) last_container_id: i64,
    pub(crate) last_account_id: i64,
    pub(crate) last_transaction_id: i64,
}

impl View for Database {
    type V = Ledger;

    /// The ledger that this store holds.
    open(crate) spec fn view(&self) -> Ledger {
        Ledger {
            containers: views_of(self.containers@),
            accounts: views_of(self.accounts@),
            categories: views_of(self.categories@),
            transactions: views_of(self.transactions@),
            last_container_id: self.last_container_id,
            last_account_id: self.last_account_id,
            last_transaction_id: self.last_transaction_id,
        }
    }
}

/// A default category.
pub open spec fn seeded(name: Seq<char>, category_type: Seq<char>) -> CategoryView {
    CategoryView { name: name, category_type: category_type, is_default: true }
}

/// The categories that a new store starts with: seven of expense, one of
/// income, all of them default.
pub open spec fn seed_categories() -> Seq<CategoryView> {
    seq![
        seeded("Food & Dining"@, "expense"@),
        seeded("Transportation"@, "expense"@),
        seeded("Shopping"@, "expense"@),
        seeded("Entertainment"@, "expense"@),
        seeded("Bills & Utilities"@, "expense"@),
        seeded("Healthcare"@, "expense"@),
        seeded("Income"@, "income"@),
        seeded("Other"@, "expense"@),
    ]
}

impl Ledger {
    /// The ledger that a new store starts with at the moment `now`: the
    /// default container "Personal" and the default categories.
    pub open spec fn initial(now: Seq<char>) -> Ledger {
        Ledger {
            containers: seq![
                ContainerView { id: 1, name: "Personal"@, created_at: now, is_default: true },
            ],
            accounts: Seq::empty(),
            categories: seed_categories(),
            transactions: Seq::empty(),
            last_container_id: 1,
            last_account_id: 0,
            last_transaction_id: 0,
        }
    }
}

/// Where the names of the categories differ from place to place, no name is
/// counted twice.
pub proof fn distinct_names_count_once(s: Seq<CategoryView>, name: Seq<char>)
    requires
        forall|i: int, j: int|
            #![trigger s[i], s[j]]
            0 <= i < j < s.len() ==> s[i].name != s[j].name,
    ensures
        count_where(s, category_named(name)) <= 1,
    decreases s.len(),
{
    if s.len() > 0 {
        let t = s.drop_last();
        assert forall|i: int, j: int|
            #![trigger t[i], t[j]]
            0 <= i < j < t.len() implies t[i].name != t[j].name by {
            assert(t[i] == s[i] && t[j] == s[j]);
        }
        distinct_names_count_once(t, name);
        if category_named(name)(s.last()) && count_where(t, category_named(name)) >= 1 {
            let i = count_witness(t, category_named(name));
            assert(t[i] == s[i]);
            assert(s[i].name != s[s.len() - 1].name);
        }
    }
}

/// The ledger that a new store starts with keeps the invariant.
pub proof fn initial_is_wf(now: Seq<char>)
    ensures
        Ledger::initial(now).wf(),
{
    let a = Ledger::initial(now);
    reveal_with_fuel(count_where, 3);
    assert(a.containers.drop_last() =~= Seq::<ContainerView>::empty());
    assert(a.containers_wf());
    let s = seed_categories();
    reveal_strlit("Food & Dining");
    reveal_strlit("Transportation");
    reveal_strlit("Shopping");
    reveal_strlit("Entertainment");
    reveal_strlit("Bills & Utilities");
    reveal_strlit("Healthcare");
    reveal_strlit("Income");
    reveal_strlit("Other");
    assert(s[0].name.len() == 13 && s[0].name[0] == 'F');
    assert(s[1].name.len() == 14);
    assert(s[2].name.len() == 8);
    assert(s[3].name.len() == 13 && s[3].name[0] == 'E');
    assert(s[4].name.len() == 17);
    assert(s[5].name.len() == 10);
    assert(s[6].name.len() == 6);
    assert(s[7].name.len() == 5);
    assert forall|name: Seq<char>| #[trigger] a.name_count(name) <= 1 by {
        distinct_names_count_once(s, name);
    }
}

/// A default category with the given name and type.
fn seed(name: &str, category_type: &str) -> (c: Category)
    ensures
        c@ == seeded(name@, category_type@),
{
    Category { name: name.to_owned(), category_type: category_type.to_owned(), is_default: true }
}

impl Database {
    /// A new store as it starts out at the moment `now`: the default
    /// container "Personal" and the eight default categories.
    pub fn new_at(now: &str) -> (db: Database)
        ensures
            db@ == Ledger::initial(now@),
            db@.wf(),
    {
        let mut containers: Vec<Container> = Vec::new();
        containers.push(
            Container {
                id: 1,
                name: "Personal".to_owned(),
                created_at: now.to_owned(),
                is_default: true,
            },
        );
        let mut categories: Vec<Category> = Vec::new();
        categories.push(seed("Food & Dining", "expense"));
        categories.push(seed("Transportation", "expense"));
        categories.push(seed("Shopping", "expense"));
        categories.push(seed("Entertainment", "expense"));
        categories.push(seed("Bills & Utilities", "expense"));
        categories.push(seed("Healthcare", "expense"));
        categories.push(seed("Income", "income"));
        categories.push(seed("Other", "expense"));
        let db = Database {
            containers,
            accounts: Vec::new(),
            categories,
            transactions: Vec::new(),
            last_container_id: 1,
            last_account_id: 0,
            last_transaction_id: 0,
        };
        proof {
            initial_is_wf(now@);
            assert(db@.containers =~= Ledger::initial(now@).containers);
            assert(db@.categories =~= seed_categories());
            assert(db@.accounts =~= Seq::<crate::model::AccountView>::empty());
            assert(db@.transactions =~= Seq::<crate::model::TransactionView>::empty());
        }
        db
    }

    /// A new store as it starts out, stamped with the local time.
    pub fn new() -> (db: Database)
        ensures
            db@.wf(),
            exists|now: Timestamp| now.is_valid() && db@ == Ledger::initial(timestamp_text(now)),
    {
        let now = Timestamp::now();
        let text = now.text();
        let db = Database::new_at(text.as_str());
        assert(db@ == Ledger::initial(timestamp_text(now)));
        db
    }
}

} // verus!
