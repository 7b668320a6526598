use spent_ledger::error::{LedgerError, PeriodFault, StorageFault, TransferFault};
use spent_ledger::{Database, NewTransaction};

const T0: &str = "2024-01-01 09:00:00";

fn entry(amount: i64, container_id: i64, account_id: i64) -> NewTransaction {
    NewTransaction { amount, description: None, category: None, container_id, account_id }
}

#[test]
fn new_store_has_the_default_container() {
    let db = Database::new_at(T0);
    let containers = db.get_containers();
    assert_eq!(containers.len(), 1);
    assert_eq!(containers[0].id, 1);
    assert_eq!(containers[0].name, "Personal");
    assert_eq!(containers[0].created_at, T0);
    assert!(containers[0].is_default);
    assert!(db.get_accounts(1).is_empty());
    assert!(db.get_transactions(1, None).is_empty());
}

#[test]
fn new_store_has_the_default_categories() {
    let db = Database::new_at(T0);
    let categories = db.get_categories();
    let names: Vec<&str> = categories.iter().map(|c| c.name.as_str()).collect();
    assert_eq!(
        names,
        vec![
            "Bills & Utilities",
            "Entertainment",
            "Food & Dining",
            "Healthcare",
            "Income",
            "Other",
            "Shopping",
            "Transportation"
        ]
    );
    for c in &categories {
        assert!(c.is_default);
        assert_eq!(c.category_type, if c.name == "Income" { "income" } else { "expense" });
    }
    let stored: Vec<String> = db.all_categories().into_iter().map(|c| c.name).collect();
    assert_eq!(stored[0], "Food & Dining");
    assert_eq!(stored[6], "Income");
    assert_eq!(stored[7], "Other");
}

#[test]
fn new_store_is_stamped_with_the_clock() {
    let db = Database::new();
    let containers = db.get_containers();
    assert_eq!(containers.len(), 1);
    assert_eq!(containers[0].created_at.len(), 19);
    assert_eq!(&containers[0].created_at[4..5], "-");
    assert_eq!(&containers[0].created_at[10..11], " ");
}

#[test]
fn containers_are_created_with_rising_identifiers() {
    let mut db = Database::new_at(T0);
    let work = db.add_container_at("Work".to_string(), "2024-01-02 00:00:00").unwrap();
    assert_eq!(work.id, 2);
    assert_eq!(work.name, "Work");
    assert_eq!(work.created_at, "2024-01-02 00:00:00");
    assert!(!work.is_default);
    let home = db.add_container("Home".to_string()).unwrap();
    assert_eq!(home.id, 3);
    assert_eq!(home.created_at.len(), 19);
    db.delete_container(3).unwrap();
    let next = db.add_container_at("Next".to_string(), T0).unwrap();
    assert_eq!(next.id, 4);
}

#[test]
fn container_names_are_unique() {
    let mut db = Database::new_at(T0);
    db.add_container_at("Work".to_string(), T0).unwrap();
    assert_eq!(
        db.add_container_at("Work".to_string(), T0),
        Err(LedgerError::Storage(StorageFault::Conflict))
    );
    assert_eq!(
        db.add_container_at("Personal".to_string(), T0),
        Err(LedgerError::Storage(StorageFault::Conflict))
    );
    assert!(db.add_container_at("work".to_string(), T0).is_ok());
    assert_eq!(db.get_containers().len(), 3);
}

#[test]
fn containers_are_listed_default_first_then_by_creation() {
    let mut db = Database::new_at("2024-05-05 00:00:00");
    db.add_container_at("C".to_string(), "2024-03-01 00:00:00").unwrap();
    db.add_container_at("A".to_string(), "2024-01-01 00:00:00").unwrap();
    db.add_container_at("B".to_string(), "2024-02-01 00:00:00").unwrap();
    db.add_container_at("B2".to_string(), "2024-02-01 00:00:00").unwrap();
    let names: Vec<String> = db.get_containers().into_iter().map(|c| c.name).collect();
    assert_eq!(names, vec!["Personal", "A", "B", "B2", "C"]);
    let stored: Vec<String> = db.all_containers().into_iter().map(|c| c.name).collect();
    assert_eq!(stored, vec!["Personal", "C", "A", "B", "B2"]);
}

#[test]
fn container_is_renamed() {
    let mut db = Database::new_at(T0);
    db.add_container_at("Work".to_string(), "2024-02-02 00:00:00").unwrap();
    let row = db.update_container(2, "Office".to_string()).unwrap();
    assert_eq!(row.id, 2);
    assert_eq!(row.name, "Office");
    assert_eq!(row.created_at, "2024-02-02 00:00:00");
    assert!(!row.is_default);
    assert_eq!(db.get_containers()[1].name, "Office");
    let same = db.update_container(2, "Office".to_string()).unwrap();
    assert_eq!(same.name, "Office");
    let main = db.update_container(1, "Main".to_string()).unwrap();
    assert!(main.is_default);
    assert_eq!(
        db.update_container(2, "Main".to_string()),
        Err(LedgerError::Storage(StorageFault::Conflict))
    );
    assert_eq!(db.update_container(9, "X".to_string()), Err(LedgerError::NotFound));
    assert_eq!(db.update_container(9, "Main".to_string()), Err(LedgerError::NotFound));
    assert_eq!(db.get_containers()[1].name, "Office");
}

#[test]
fn default_container_cannot_be_deleted() {
    let mut db = Database::new_at(T0);
    assert_eq!(db.delete_container(1), Err(LedgerError::ProtectedEntity));
    db.add_container_at("Work".to_string(), T0).unwrap();
    assert_eq!(db.delete_container(1), Err(LedgerError::ProtectedEntity));
    assert_eq!(db.get_containers().len(), 2);
    assert!(!LedgerError::ProtectedEntity.validation());
}

#[test]
fn other_container_is_deleted_and_leaves_the_listing() {
    let mut db = Database::new_at(T0);
    db.add_container_at("Work".to_string(), T0).unwrap();
    db.add_container_at("Home".to_string(), T0).unwrap();
    assert_eq!(db.delete_container(2), Ok(()));
    let names: Vec<String> = db.get_containers().into_iter().map(|c| c.name).collect();
    assert_eq!(names, vec!["Personal", "Home"]);
    assert_eq!(db.delete_container(2), Err(LedgerError::NotFound));
    assert_eq!(db.delete_container(77), Err(LedgerError::NotFound));
}

#[test]
fn deleting_a_container_takes_its_accounts_and_entries() {
    let mut db = Database::new_at(T0);
    db.add_container_at("Work".to_string(), T0).unwrap();
    db.add_account_at(1, "Cash".to_string(), "asset".to_string(), 0, T0).unwrap();
    db.add_account_at(2, "Till".to_string(), "asset".to_string(), 0, T0).unwrap();
    db.add_account_at(2, "Bank".to_string(), "asset".to_string(), 0, T0).unwrap();
    db.add_transaction_at(entry(100, 1, 1), T0).unwrap();
    db.add_transaction_at(entry(200, 2, 2), T0).unwrap();
    db.add_transfer_at(2, 2, 3, 50, None, T0).unwrap();
    db.add_transaction_at(entry(300, 1, 1), T0).unwrap();
    db.delete_container(2).unwrap();
    assert_eq!(db.all_accounts().len(), 1);
    assert_eq!(db.all_accounts()[0].name, "Cash");
    let left: Vec<i64> = db.all_transactions().iter().map(|t| t.id).collect();
    assert_eq!(left, vec![1, 5]);
    assert!(db.get_transactions(2, None).is_empty());
    assert_eq!(db.add_transaction_at(entry(1, 2, 0), T0), Err(LedgerError::NotFound));
}

#[test]
fn accounts_are_created_trimmed() {
    let mut db = Database::new_at(T0);
    let a = db
        .add_account_at(1, "  Checking ".to_string(), " asset\t".to_string(), 12345, "2024-01-05 00:00:00")
        .unwrap();
    assert_eq!(a.id, 1);
    assert_eq!(a.name, "Checking");
    assert_eq!(a.account_type, "asset");
    assert_eq!(a.opening_balance, 12345);
    assert_eq!(a.container_id, 1);
    assert_eq!(a.created_at, "2024-01-05 00:00:00");
    let b = db.add_account(1, "Savings".to_string(), "asset".to_string(), -5).unwrap();
    assert_eq!(b.id, 2);
    assert_eq!(b.created_at.len(), 19);
}

#[test]
fn account_names_are_unique_within_a_container() {
    let mut db = Database::new_at(T0);
    db.add_container_at("Work".to_string(), T0).unwrap();
    db.add_account_at(1, "Cash".to_string(), "asset".to_string(), 0, T0).unwrap();
    assert_eq!(
        db.add_account_at(1, " Cash ".to_string(), "liability".to_string(), 0, T0),
        Err(LedgerError::Storage(StorageFault::Conflict))
    );
    assert!(db.add_account_at(2, "Cash".to_string(), "asset".to_string(), 0, T0).is_ok());
    assert_eq!(
        db.add_account_at(3, "Cash".to_string(), "asset".to_string(), 0, T0),
        Err(LedgerError::NotFound)
    );
    assert_eq!(db.all_accounts().len(), 2);
}

#[test]
fn accounts_are_listed_by_name() {
    let mut db = Database::new_at(T0);
    db.add_container_at("Work".to_string(), T0).unwrap();
    for name in ["delta", "Alpha", "charlie", "Bravo"] {
        db.add_account_at(1, name.to_string(), "asset".to_string(), 0, T0).unwrap();
    }
    db.add_account_at(2, "Aaa".to_string(), "asset".to_string(), 0, T0).unwrap();
    let names: Vec<String> = db.get_accounts(1).into_iter().map(|a| a.name).collect();
    assert_eq!(names, vec!["Alpha", "Bravo", "charlie", "delta"]);
    assert_eq!(db.get_accounts(2).len(), 1);
    assert!(db.get_accounts(3).is_empty());
}

#[test]
fn account_is_revised() {
    let mut db = Database::new_at(T0);
    db.add_account_at(1, "Cash".to_string(), "asset".to_string(), 10, "2024-01-05 00:00:00").unwrap();
    db.add_account_at(1, "Bank".to_string(), "liability".to_string(), 20, T0).unwrap();
    let row = db.update_account(1, "  Wallet ".to_string(), 99).unwrap();
    assert_eq!(row.id, 1);
    assert_eq!(row.name, "Wallet");
    assert_eq!(row.opening_balance, 99);
    assert_eq!(row.account_type, "asset");
    assert_eq!(row.container_id, 1);
    assert_eq!(row.created_at, "2024-01-05 00:00:00");
    assert_eq!(db.get_accounts(1)[1].name, "Wallet");
    assert_eq!(
        db.update_account(1, "Bank".to_string(), 0),
        Err(LedgerError::Storage(StorageFault::Conflict))
    );
    assert!(db.update_account(1, "Wallet".to_string(), 5).is_ok());
    assert_eq!(db.update_account(5, "X".to_string(), 0), Err(LedgerError::NotFound));
    assert_eq!(db.get_accounts(1)[1].opening_balance, 5);
}

#[test]
fn deleting_an_account_clears_the_references_to_it() {
    let mut db = Database::new_at(T0);
    db.add_account_at(1, "Cash".to_string(), "asset".to_string(), 0, T0).unwrap();
    db.add_account_at(1, "Bank".to_string(), "asset".to_string(), 0, T0).unwrap();
    db.add_transaction_at(entry(100, 1, 1), T0).unwrap();
    db.add_transaction_at(entry(200, 1, 2), T0).unwrap();
    db.add_transfer_at(1, 1, 2, 50, None, T0).unwrap();
    db.delete_account(1);
    let rows = db.all_transactions();
    assert_eq!(rows.len(), 4);
    assert_eq!(rows[0].account_id, 0);
    assert_eq!(rows[1].account_id, 2);
    assert_eq!(rows[2].account_id, 0);
    assert_eq!(rows[2].transfer_account_id, 2);
    assert_eq!(rows[3].account_id, 2);
    assert_eq!(rows[3].transfer_account_id, 1);
    assert_eq!(db.get_accounts(1).len(), 1);
    db.delete_account(1);
    db.delete_account(42);
    assert_eq!(db.get_accounts(1).len(), 1);
    db.delete_transaction(3).unwrap();
    assert_eq!(db.all_transactions().len(), 2);
}

#[test]
fn categories_are_created_and_deleted() {
    let mut db = Database::new_at(T0);
    assert_eq!(db.add_category("Gifts".to_string(), "expense".to_string()), Ok(()));
    assert_eq!(db.add_category("Salary".to_string(), "income".to_string()), Ok(()));
    assert_eq!(
        db.add_category("Gifts".to_string(), "income".to_string()),
        Err(LedgerError::Storage(StorageFault::Conflict))
    );
    assert_eq!(
        db.add_category("Other".to_string(), "expense".to_string()),
        Err(LedgerError::Storage(StorageFault::Conflict))
    );
    let listed: Vec<String> = db.get_categories().into_iter().map(|c| c.name).collect();
    assert_eq!(listed.len(), 10);
    assert_eq!(listed[8], "Gifts");
    assert_eq!(listed[9], "Salary");
    assert!(!db.get_categories()[8].is_default);
    assert_eq!(db.delete_category("Gifts".to_string()), Ok(()));
    assert_eq!(db.get_categories().len(), 9);
    assert_eq!(db.delete_category("Gifts".to_string()), Ok(()));
    assert_eq!(db.delete_category("Nothing".to_string()), Ok(()));
    assert_eq!(db.get_categories().len(), 9);
}

#[test]
fn default_categories_cannot_be_deleted() {
    let mut db = Database::new_at(T0);
    assert_eq!(db.delete_category("Other".to_string()), Err(LedgerError::ProtectedEntity));
    assert_eq!(db.delete_category("Income".to_string()), Err(LedgerError::ProtectedEntity));
    assert_eq!(db.get_categories().len(), 8);
}

#[test]
fn entries_are_recorded_with_defaults() {
    let mut db = Database::new_at(T0);
    let row = db.add_transaction_at(entry(-1250, 1, 0), "2024-03-01 08:00:00").unwrap();
    assert_eq!(row.id, 1);
    assert_eq!(row.amount, -1250);
    assert_eq!(row.description, "Untitled");
    assert_eq!(row.category, "Other");
    assert_eq!(row.date, "2024-03-01 08:00:00");
    assert_eq!(row.container_id, 1);
    assert_eq!(row.account_id, 0);
    assert_eq!(row.transfer_id, 0);
    assert_eq!(row.transfer_account_id, 0);
    let full = NewTransaction {
        amount: 5,
        description: Some("Coffee".to_string()),
        category: Some("Food & Dining".to_string()),
        container_id: 1,
        account_id: 7,
    };
    let second = db.add_transaction_at(full.clone(), "2024-03-02 08:00:00").unwrap();
    assert_eq!(second.id, 2);
    assert_eq!(second.description, "Coffee");
    assert_eq!(second.category, "Food & Dining");
    assert_eq!(second.account_id, 7);
    let third = db.add_transaction(full).unwrap();
    assert_eq!(third.id, 3);
    assert_eq!(third.date.len(), 19);
    assert_eq!(db.add_transaction_at(entry(1, 5, 0), T0), Err(LedgerError::NotFound));
    assert_eq!(db.all_transactions(), vec![row, second, third]);
}

#[test]
fn entries_are_listed_latest_first() {
    let mut db = Database::new_at(T0);
    db.add_container_at("Work".to_string(), T0).unwrap();
    db.add_transaction_at(entry(1, 1, 1), "2024-03-02 00:00:00").unwrap();
    db.add_transaction_at(entry(2, 1, 2), "2024-03-05 00:00:00").unwrap();
    db.add_transaction_at(entry(3, 1, 1), "2024-02-28 00:00:00").unwrap();
    db.add_transaction_at(entry(4, 2, 1), "2024-03-09 00:00:00").unwrap();
    db.add_transaction_at(entry(5, 1, 1), "2024-03-05 00:00:00").unwrap();
    db.add_transaction_at(entry(6, 1, 2), "2024-04-01 12:00:00").unwrap();
    let ids = |rows: Vec<spent_ledger::Transaction>| rows.iter().map(|t| t.id).collect::<Vec<i64>>();
    assert_eq!(ids(db.get_transactions(1, None)), vec![6, 2, 5, 1, 3]);
    assert_eq!(ids(db.get_transactions(1, Some(2))), vec![6, 2]);
    assert_eq!(ids(db.get_transactions(1, Some(0))), Vec::<i64>::new());
    assert_eq!(ids(db.get_transactions(1, Some(5))), vec![6, 2, 5, 1, 3]);
    assert_eq!(ids(db.get_transactions(1, Some(50))), vec![6, 2, 5, 1, 3]);
    assert_eq!(ids(db.get_transactions(1, Some(-1))), vec![6, 2, 5, 1, 3]);
    assert_eq!(ids(db.get_transactions(2, None)), vec![4]);
    assert_eq!(ids(db.get_transactions(3, None)), Vec::<i64>::new());
    assert_eq!(ids(db.get_transactions_by_account(1, 1, None)), vec![5, 1, 3]);
    assert_eq!(ids(db.get_transactions_by_account(1, 1, Some(1))), vec![5]);
    assert_eq!(ids(db.get_transactions_by_account(1, 2, None)), vec![6, 2]);
    assert_eq!(ids(db.get_transactions_by_account(2, 2, None)), Vec::<i64>::new());
    assert_eq!(ids(db.get_transactions_for_month(1, "2024-03".to_string(), None)), vec![2, 5, 1]);
    assert_eq!(ids(db.get_transactions_for_month(1, "2024-03".to_string(), Some(2))), vec![2, 5]);
    assert_eq!(ids(db.get_transactions_for_month(1, "2024-02".to_string(), None)), vec![3]);
    assert_eq!(ids(db.get_transactions_for_month(1, "2024-05".to_string(), None)), Vec::<i64>::new());
    assert_eq!(ids(db.get_transactions_for_month(1, "bad".to_string(), None)), Vec::<i64>::new());
    assert_eq!(ids(db.get_transactions_for_month(2, "2024-03".to_string(), None)), vec![4]);
}

#[test]
fn entry_is_revised() {
    let mut db = Database::new_at(T0);
    db.add_transaction_at(entry(100, 1, 1), "2024-03-02 00:00:00").unwrap();
    db.add_transaction_at(entry(200, 1, 1), "2024-03-03 00:00:00").unwrap();
    let row = db.update_transaction(1, -75, "Lunch".to_string(), "Food & Dining".to_string(), 4).unwrap();
    assert_eq!(row.id, 1);
    assert_eq!(row.amount, -75);
    assert_eq!(row.description, "Lunch");
    assert_eq!(row.category, "Food & Dining");
    assert_eq!(row.account_id, 4);
    assert_eq!(row.date, "2024-03-02 00:00:00");
    assert_eq!(row.container_id, 1);
    assert_eq!(row.transfer_id, 0);
    assert_eq!(db.all_transactions()[0], row);
    assert_eq!(db.all_transactions()[1].amount, 200);
    assert_eq!(
        db.update_transaction(9, 1, "x".to_string(), "y".to_string(), 0),
        Err(LedgerError::NotFound)
    );
}

#[test]
fn leg_of_a_transfer_cannot_be_revised() {
    let mut db = Database::new_at(T0);
    db.add_transfer_at(1, 1, 2, 500, None, T0).unwrap();
    let before = db.all_transactions();
    assert_eq!(
        db.update_transaction(1, 1, "x".to_string(), "y".to_string(), 0),
        Err(LedgerError::ImmutableEntity)
    );
    assert_eq!(
        db.update_transaction(2, 1, "x".to_string(), "y".to_string(), 0),
        Err(LedgerError::ImmutableEntity)
    );
    assert_eq!(db.all_transactions(), before);
    assert!(!LedgerError::ImmutableEntity.validation());
}

#[test]
fn entry_is_deleted_alone() {
    let mut db = Database::new_at(T0);
    db.add_transaction_at(entry(100, 1, 1), T0).unwrap();
    db.add_transaction_at(entry(200, 1, 1), T0).unwrap();
    db.add_transaction_at(entry(300, 1, 1), T0).unwrap();
    assert_eq!(db.delete_transaction(2), Ok(()));
    let ids: Vec<i64> = db.all_transactions().iter().map(|t| t.id).collect();
    assert_eq!(ids, vec![1, 3]);
    assert_eq!(db.delete_transaction(2), Err(LedgerError::NotFound));
    let next = db.add_transaction_at(entry(1, 1, 1), T0).unwrap();
    assert_eq!(next.id, 4);
    db.delete_transaction(4).unwrap();
    let again = db.add_transaction_at(entry(1, 1, 1), T0).unwrap();
    assert_eq!(again.id, 5);
}

#[test]
fn messages_of_failures() {
    assert_eq!(
        LedgerError::InvalidTransfer(TransferFault::SameAccount).message(),
        "Source and destination accounts must be different"
    );
    assert_eq!(
        LedgerError::InvalidTransfer(TransferFault::NonPositiveAmount).message(),
        "Transfer amount must be positive"
    );
    assert_eq!(LedgerError::InvalidPeriod(PeriodFault::Format).message(), "Invalid month format");
    assert_eq!(LedgerError::InvalidPeriod(PeriodFault::Year).message(), "Invalid year");
    assert_eq!(LedgerError::InvalidPeriod(PeriodFault::Month).message(), "Invalid month");
    assert_eq!(LedgerError::ImmutableEntity.message(), "Cannot update transfer transaction");
    assert!(!LedgerError::NotFound.message().is_empty());
    assert!(!LedgerError::ProtectedEntity.message().is_empty());
    assert!(!LedgerError::Storage(StorageFault::Conflict).message().is_empty());
    assert!(!LedgerError::Storage(StorageFault::Exhausted).message().is_empty());
    assert!(!LedgerError::Storage(StorageFault::Overflow).message().is_empty());
    assert!(!LedgerError::Storage(StorageFault::Corrupt).message().is_empty());
    assert!(LedgerError::InvalidTransfer(TransferFault::SameAccount).validation());
    assert!(LedgerError::InvalidPeriod(PeriodFault::Year).validation());
    assert!(!LedgerError::NotFound.validation());
    assert!(!LedgerError::Storage(StorageFault::Conflict).validation());
}
