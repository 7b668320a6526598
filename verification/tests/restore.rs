use spent_ledger::error::{LedgerError, StorageFault};
use spent_ledger::{Account, Category, Container, Database, NewTransaction, Transaction};

const T0: &str = "2024-01-01 09:00:00";

fn container(id: i64, name: &str, is_default: bool) -> Container {
    Container { id, name: name.to_string(), created_at: T0.to_string(), is_default }
}

fn account(id: i64, name: &str, container_id: i64) -> Account {
    Account {
        id,
        name: name.to_string(),
        account_type: "asset".to_string(),
        opening_balance: 0,
        container_id,
        created_at: T0.to_string(),
    }
}

fn category(name: &str, kind: &str) -> Category {
    Category { name: name.to_string(), category_type: kind.to_string(), is_default: false }
}

fn plain(id: i64, amount: i64, container_id: i64) -> Transaction {
    Transaction {
        id,
        amount,
        description: "d".to_string(),
        category: "Other".to_string(),
        date: T0.to_string(),
        container_id,
        account_id: 0,
        transfer_id: 0,
        transfer_account_id: 0,
    }
}

fn leg(id: i64, amount: i64, account_id: i64, transfer_id: i64, other: i64) -> Transaction {
    Transaction {
        id,
        amount,
        description: "Transfer".to_string(),
        category: "Transfer".to_string(),
        date: T0.to_string(),
        container_id: 1,
        account_id,
        transfer_id,
        transfer_account_id: other,
    }
}

fn corrupt<T>(r: Result<Database, LedgerError>, what: T)
where
    T: std::fmt::Debug,
{
    assert_eq!(r.err(), Some(LedgerError::Storage(StorageFault::Corrupt)), "{:?}", what);
}

#[test]
fn restore_of_nothing_starts_a_new_store() {
    let db = Database::restore(vec![], vec![], vec![], vec![], T0).unwrap();
    let fresh = Database::new_at(T0);
    assert_eq!(db.all_containers(), fresh.all_containers());
    assert_eq!(db.all_categories(), fresh.all_categories());
    assert!(db.all_accounts().is_empty());
    assert!(db.all_transactions().is_empty());
}

#[test]
fn restore_gives_back_what_was_taken_apart() {
    let mut db = Database::new_at(T0);
    db.add_container_at("Work".to_string(), T0).unwrap();
    db.add_account_at(1, "Cash".to_string(), "asset".to_string(), 5, T0).unwrap();
    db.add_account_at(2, "Till".to_string(), "asset".to_string(), 6, T0).unwrap();
    db.add_category("Gifts".to_string(), "expense".to_string()).unwrap();
    db.add_transaction_at(
        NewTransaction { amount: 5, description: None, category: None, container_id: 1, account_id: 1 },
        T0,
    )
    .unwrap();
    db.add_transfer_at(2, 2, 9, 50, None, T0).unwrap();
    db.delete_account(2);
    let mut copy = Database::restore(
        db.all_containers(),
        db.all_accounts(),
        db.all_categories(),
        db.all_transactions(),
        "2030-01-01 00:00:00",
    )
    .unwrap();
    assert_eq!(copy.all_containers(), db.all_containers());
    assert_eq!(copy.all_accounts(), db.all_accounts());
    assert_eq!(copy.all_categories(), db.all_categories());
    assert_eq!(copy.all_transactions(), db.all_transactions());
    assert_eq!(copy.add_container_at("Next".to_string(), T0).unwrap().id, 3);
    assert_eq!(copy.add_account_at(1, "Next".to_string(), "asset".to_string(), 0, T0).unwrap().id, 2);
    assert_eq!(copy.add_transfer_at(1, 1, 2, 5, None, T0), Ok(2));
    assert_eq!(copy.all_transactions().last().unwrap().id, 5);
}

#[test]
fn restore_makes_income_of_type_income() {
    let kinds = vec![category("Income", "expense"), category("Rent", "expense"), category("income", "x")];
    let db = Database::restore(vec![container(1, "Main", true)], vec![], kinds, vec![], T0).unwrap();
    let stored = db.all_categories();
    assert_eq!(stored.len(), 3);
    assert_eq!(stored[0].category_type, "income");
    assert_eq!(stored[1].category_type, "expense");
    assert_eq!(stored[2].category_type, "x");
    assert_eq!(db.all_containers(), vec![container(1, "Main", true)]);
}

#[test]
fn restore_refuses_containers_that_break_the_rules() {
    let none_default = vec![container(1, "A", false)];
    corrupt(Database::restore(none_default, vec![], vec![], vec![], T0), "no default");
    let two_default = vec![container(1, "A", true), container(2, "B", true)];
    corrupt(Database::restore(two_default, vec![], vec![], vec![], T0), "two defaults");
    let same_name = vec![container(1, "A", true), container(2, "A", false)];
    corrupt(Database::restore(same_name, vec![], vec![], vec![], T0), "same name");
    let same_id = vec![container(1, "A", true), container(1, "B", false)];
    corrupt(Database::restore(same_id, vec![], vec![], vec![], T0), "same id");
    let falling = vec![container(2, "A", true), container(1, "B", false)];
    corrupt(Database::restore(falling, vec![], vec![], vec![], T0), "falling ids");
    let zero = vec![container(0, "A", true)];
    corrupt(Database::restore(zero, vec![], vec![], vec![], T0), "id 0");
    let negative = vec![container(-4, "A", true), container(3, "B", false)];
    corrupt(Database::restore(negative, vec![], vec![], vec![], T0), "negative id");
}

#[test]
fn restore_refuses_accounts_that_break_the_rules() {
    let one = || vec![container(1, "A", true), container(2, "B", false)];
    assert!(Database::restore(one(), vec![account(1, "x", 1), account(2, "x", 2)], vec![], vec![], T0).is_ok());
    corrupt(
        Database::restore(one(), vec![account(1, "x", 1), account(2, "x", 1)], vec![], vec![], T0),
        "same name",
    );
    corrupt(Database::restore(one(), vec![account(1, "x", 3)], vec![], vec![], T0), "no container");
    corrupt(
        Database::restore(one(), vec![account(2, "x", 1), account(2, "y", 1)], vec![], vec![], T0),
        "same id",
    );
    corrupt(Database::restore(one(), vec![account(0, "x", 1)], vec![], vec![], T0), "id 0");
    corrupt(Database::restore(vec![], vec![account(1, "x", 2)], vec![], vec![], T0), "no container");
    assert!(Database::restore(vec![], vec![account(1, "x", 1)], vec![], vec![], T0).is_ok());
}

#[test]
fn restore_refuses_categories_with_one_name() {
    let kinds = vec![category("a", "expense"), category("b", "income"), category("a", "income")];
    corrupt(Database::restore(vec![], vec![], kinds, vec![], T0), "same name");
}

#[test]
fn restore_refuses_entries_that_break_the_rules() {
    assert!(Database::restore(vec![], vec![], vec![], vec![plain(3, 1, 1), plain(9, 2, 1)], T0).is_ok());
    corrupt(Database::restore(vec![], vec![], vec![], vec![plain(3, 1, 1), plain(3, 2, 1)], T0), "same id");
    corrupt(Database::restore(vec![], vec![], vec![], vec![plain(3, 1, 1), plain(2, 2, 1)], T0), "falling");
    corrupt(Database::restore(vec![], vec![], vec![], vec![plain(0, 1, 1)], T0), "id 0");
    corrupt(Database::restore(vec![], vec![], vec![], vec![plain(1, 1, 2)], T0), "no container");
    let mut negative = plain(1, 1, 1);
    negative.transfer_id = -1;
    corrupt(Database::restore(vec![], vec![], vec![], vec![negative], T0), "negative transfer id");
}

#[test]
fn restore_refuses_legs_that_are_no_pair() {
    let good = vec![leg(1, -5, 1, 7, 2), leg(2, 5, 2, 7, 1)];
    assert!(Database::restore(vec![], vec![], vec![], good, T0).is_ok());
    let cleared = vec![leg(1, -5, 0, 7, 2), leg(2, 5, 0, 7, 1)];
    assert!(Database::restore(vec![], vec![], vec![], cleared, T0).is_ok());
    let alone = vec![leg(1, -5, 1, 7, 2)];
    corrupt(Database::restore(vec![], vec![], vec![], alone, T0), "one leg");
    let three = vec![leg(1, -5, 1, 7, 2), leg(2, 5, 2, 7, 1), leg(3, -5, 1, 7, 2)];
    corrupt(Database::restore(vec![], vec![], vec![], three, T0), "three legs");
    let unequal = vec![leg(1, -5, 1, 7, 2), leg(2, 6, 2, 7, 1)];
    corrupt(Database::restore(vec![], vec![], vec![], unequal, T0), "amounts");
    let nothing = vec![leg(1, 0, 1, 7, 2), leg(2, 0, 2, 7, 1)];
    corrupt(Database::restore(vec![], vec![], vec![], nothing, T0), "zero");
    let same = vec![leg(1, -5, 1, 7, 2), leg(2, 5, 1, 7, 2)];
    corrupt(Database::restore(vec![], vec![], vec![], same, T0), "same counterpart");
    let crossed = vec![leg(1, -5, 2, 7, 2), leg(2, 5, 1, 7, 1)];
    corrupt(Database::restore(vec![], vec![], vec![], crossed, T0), "crossed");
    let lowest = vec![leg(1, i64::MIN, 1, 7, 2), leg(2, i64::MIN, 2, 7, 1)];
    corrupt(Database::restore(vec![], vec![], vec![], lowest, T0), "lowest amounts");
    let mut apart = leg(2, 5, 2, 7, 1);
    apart.container_id = 2;
    let two = vec![container(1, "A", true), container(2, "B", false)];
    corrupt(
        Database::restore(two, vec![], vec![], vec![leg(1, -5, 1, 7, 2), apart], T0),
        "two containers",
    );
}
