use spent_ledger::error::{LedgerError, StorageFault, TransferFault};
use spent_ledger::{Account, Category, Container, Database, NewTransaction, Transaction};

const T0: &str = "2024-01-01 09:00:00";

fn store() -> Database {
    let mut db = Database::new_at(T0);
    db.add_account_at(1, "Cash".to_string(), "asset".to_string(), 1000, T0).unwrap();
    db.add_account_at(1, "Bank".to_string(), "asset".to_string(), 5000, T0).unwrap();
    db
}

fn entry(amount: i64, account_id: i64) -> NewTransaction {
    NewTransaction { amount, description: None, category: None, container_id: 1, account_id }
}

fn balance(db: &Database, account: i64) -> i64 {
    db.get_account_balances(1).unwrap().into_iter().find(|a| a.id == account).unwrap().balance
}

#[test]
fn transfer_makes_two_legs() {
    let mut db = store();
    db.add_transaction_at(entry(700, 1), T0).unwrap();
    let id = db
        .add_transfer_at(1, 1, 2, 250, Some("To the bank".to_string()), "2024-03-03 10:00:00")
        .unwrap();
    assert_eq!(id, 1);
    let rows = db.all_transactions();
    assert_eq!(rows.len(), 3);
    let debit = &rows[1];
    let credit = &rows[2];
    assert_eq!(
        *debit,
        Transaction {
            id: 2,
            amount: -250,
            description: "To the bank".to_string(),
            category: "Transfer".to_string(),
            date: "2024-03-03 10:00:00".to_string(),
            container_id: 1,
            account_id: 1,
            transfer_id: 1,
            transfer_account_id: 2,
        }
    );
    assert_eq!(
        *credit,
        Transaction {
            id: 3,
            amount: 250,
            description: "To the bank".to_string(),
            category: "Transfer".to_string(),
            date: "2024-03-03 10:00:00".to_string(),
            container_id: 1,
            account_id: 2,
            transfer_id: 1,
            transfer_account_id: 1,
        }
    );
    assert_eq!(debit.amount + credit.amount, 0);
    assert!(debit.account_id != credit.account_id);
}

#[test]
fn transfer_description_defaults() {
    let mut db = store();
    db.add_transfer_at(1, 1, 2, 1, None, T0).unwrap();
    let rows = db.all_transactions();
    assert_eq!(rows[0].description, "Transfer");
    assert_eq!(rows[1].description, "Transfer");
}

#[test]
fn transfer_with_the_clock() {
    let mut db = store();
    let id = db.add_transfer(1, 1, 2, 10, None).unwrap();
    assert_eq!(id, 1);
    let rows = db.all_transactions();
    assert_eq!(rows.len(), 2);
    assert_eq!(rows[0].date, rows[1].date);
    assert_eq!(rows[0].date.len(), 19);
}

#[test]
fn transfer_leaves_the_flow_of_the_container() {
    let mut db = store();
    db.add_transaction_at(entry(700, 1), T0).unwrap();
    db.add_transaction_at(entry(-200, 2), T0).unwrap();
    let before = db.get_all_time_balance(1).unwrap();
    assert_eq!(before, 500);
    db.add_transfer_at(1, 1, 2, 250, None, T0).unwrap();
    assert_eq!(db.get_all_time_balance(1).unwrap(), before);
    db.add_transfer_at(1, 2, 1, 9999, None, T0).unwrap();
    assert_eq!(db.get_all_time_balance(1).unwrap(), before);
}

#[test]
fn transfer_between_one_account_fails() {
    let mut db = store();
    let e = db.add_transfer_at(1, 1, 1, 100, None, T0).unwrap_err();
    assert_eq!(e, LedgerError::InvalidTransfer(TransferFault::SameAccount));
    assert!(e.validation());
    assert_eq!(
        db.add_transfer_at(1, 2, 2, -5, None, T0),
        Err(LedgerError::InvalidTransfer(TransferFault::SameAccount))
    );
    assert_eq!(
        db.add_transfer_at(99, 3, 3, 5, None, T0),
        Err(LedgerError::InvalidTransfer(TransferFault::SameAccount))
    );
    assert_eq!(
        db.add_transfer(1, 1, 1, 100, None),
        Err(LedgerError::InvalidTransfer(TransferFault::SameAccount))
    );
    assert!(db.all_transactions().is_empty());
}

#[test]
fn transfer_of_nothing_or_less_fails() {
    let mut db = store();
    for amount in [0, -1, -250, i64::MIN] {
        let e = db.add_transfer_at(1, 1, 2, amount, None, T0).unwrap_err();
        assert_eq!(e, LedgerError::InvalidTransfer(TransferFault::NonPositiveAmount));
        assert!(e.validation());
    }
    assert_eq!(
        db.add_transfer_at(99, 1, 2, 0, None, T0),
        Err(LedgerError::InvalidTransfer(TransferFault::NonPositiveAmount))
    );
    assert!(db.all_transactions().is_empty());
}

#[test]
fn transfer_into_a_missing_container_fails() {
    let mut db = store();
    assert_eq!(db.add_transfer_at(2, 1, 2, 5, None, T0), Err(LedgerError::NotFound));
    assert!(db.all_transactions().is_empty());
}

#[test]
fn transfer_of_the_largest_amount() {
    let mut db = store();
    db.add_transfer_at(1, 1, 2, i64::MAX, None, T0).unwrap();
    let rows = db.all_transactions();
    assert_eq!(rows[0].amount, -i64::MAX);
    assert_eq!(rows[1].amount, i64::MAX);
}

#[test]
fn transfer_identifiers_follow_the_largest_in_the_store() {
    let mut db = store();
    db.add_container_at("Work".to_string(), T0).unwrap();
    assert_eq!(db.add_transfer_at(1, 1, 2, 5, None, T0), Ok(1));
    assert_eq!(db.add_transfer_at(2, 8, 9, 5, None, T0), Ok(2));
    assert_eq!(db.add_transfer_at(1, 2, 1, 5, None, T0), Ok(3));
    db.delete_transaction(3).unwrap();
    assert_eq!(db.add_transfer_at(1, 1, 2, 5, None, T0), Ok(4));
    db.delete_transaction(7).unwrap();
    db.delete_transaction(5).unwrap();
    assert_eq!(db.add_transfer_at(1, 1, 2, 5, None, T0), Ok(2));
    db.delete_transaction(1).unwrap();
    db.delete_transaction(10).unwrap();
    assert!(db.all_transactions().is_empty());
    assert_eq!(db.add_transfer_at(1, 1, 2, 5, None, T0), Ok(1));
    assert_eq!(db.all_transactions()[0].id, 11);
}

#[test]
fn deleting_the_debit_leg_removes_both() {
    let mut db = store();
    db.add_transaction_at(entry(700, 1), T0).unwrap();
    db.add_transfer_at(1, 1, 2, 250, None, T0).unwrap();
    db.add_transfer_at(1, 2, 1, 40, None, T0).unwrap();
    assert_eq!(db.delete_transaction(2), Ok(()));
    let ids: Vec<i64> = db.all_transactions().iter().map(|t| t.id).collect();
    assert_eq!(ids, vec![1, 4, 5]);
    assert_eq!(db.delete_transaction(3), Err(LedgerError::NotFound));
    assert!(db.all_transactions().iter().all(|t| t.transfer_id != 1));
}

#[test]
fn deleting_the_credit_leg_removes_both() {
    let mut db = store();
    db.add_transaction_at(entry(700, 1), T0).unwrap();
    db.add_transfer_at(1, 1, 2, 250, None, T0).unwrap();
    db.add_transfer_at(1, 2, 1, 40, None, T0).unwrap();
    assert_eq!(db.delete_transaction(3), Ok(()));
    let ids: Vec<i64> = db.all_transactions().iter().map(|t| t.id).collect();
    assert_eq!(ids, vec![1, 4, 5]);
    assert_eq!(db.delete_transaction(2), Err(LedgerError::NotFound));
}

#[test]
fn no_leg_is_left_alone() {
    let mut db = store();
    for k in 0..6 {
        db.add_transfer_at(1, 1, 2, 10 + k, None, T0).unwrap();
        db.add_transaction_at(entry(k, 1), T0).unwrap();
    }
    db.delete_transaction(1).unwrap();
    db.delete_transaction(8).unwrap();
    db.delete_transaction(12).unwrap();
    db.delete_account(2);
    let rows = db.all_transactions();
    for t in rows.iter().filter(|t| t.transfer_id != 0) {
        let partners: Vec<&Transaction> =
            rows.iter().filter(|o| o.transfer_id == t.transfer_id && o.id != t.id).collect();
        assert_eq!(partners.len(), 1);
        assert_eq!(partners[0].amount + t.amount, 0);
        assert_eq!(partners[0].container_id, t.container_id);
    }
    assert_eq!(rows.iter().filter(|t| t.transfer_id != 0).count(), 8);
}

#[test]
fn balances_follow_the_entries() {
    let mut db = store();
    assert_eq!(balance(&db, 1), 1000);
    assert_eq!(balance(&db, 2), 5000);
    db.add_transaction_at(entry(700, 1), T0).unwrap();
    db.add_transaction_at(entry(-200, 2), T0).unwrap();
    db.add_transaction_at(entry(-50, 1), T0).unwrap();
    db.add_transaction_at(entry(999, 0), T0).unwrap();
    assert_eq!(balance(&db, 1), 1650);
    assert_eq!(balance(&db, 2), 4800);
    db.add_transfer_at(1, 1, 2, 250, None, T0).unwrap();
    assert_eq!(balance(&db, 1), 1400);
    assert_eq!(balance(&db, 2), 5050);
    db.add_transfer_at(1, 2, 1, 1000, None, T0).unwrap();
    assert_eq!(balance(&db, 1), 2400);
    assert_eq!(balance(&db, 2), 4050);
    db.delete_transaction(5).unwrap();
    assert_eq!(balance(&db, 1), 2650);
    assert_eq!(balance(&db, 2), 3800);
    db.update_transaction(1, 1, "x".to_string(), "y".to_string(), 2).unwrap();
    assert_eq!(balance(&db, 1), 1950);
    assert_eq!(balance(&db, 2), 3801);
    db.update_account(1, "Cash".to_string(), 0).unwrap();
    assert_eq!(balance(&db, 1), 950);
    let rows = db.all_transactions();
    for a in db.get_account_balances(1).unwrap() {
        let moved: i64 = rows.iter().filter(|t| t.account_id == a.id).map(|t| t.amount).sum();
        assert_eq!(a.balance, a.opening_balance + moved);
    }
}

#[test]
fn balance_of_one_account() {
    let mut db = store();
    assert_eq!(db.account_balance(1), Ok(1000));
    assert_eq!(db.account_balance(2), Ok(5000));
    assert_eq!(db.account_balance(3), Err(LedgerError::NotFound));
    assert_eq!(db.account_balance(0), Err(LedgerError::NotFound));
    db.add_transaction_at(entry(-250, 1), T0).unwrap();
    db.add_transfer_at(1, 2, 1, 40, None, T0).unwrap();
    assert_eq!(db.account_balance(1), Ok(790));
    assert_eq!(db.account_balance(2), Ok(4960));
    db.add_transaction_at(entry(i64::MAX, 2), T0).unwrap();
    assert_eq!(db.account_balance(2), Err(LedgerError::Storage(StorageFault::Overflow)));
    assert_eq!(db.account_balance(1), Ok(790));
    for a in db.get_account_balances(1).unwrap_or_default() {
        assert_eq!(db.account_balance(a.id), Ok(a.balance));
    }
    db.delete_transaction(4).unwrap();
    for a in db.get_account_balances(1).unwrap() {
        assert_eq!(db.account_balance(a.id), Ok(a.balance));
    }
}

#[test]
fn account_balances_carry_the_account() {
    let mut db = store();
    db.add_transaction_at(entry(5, 2), T0).unwrap();
    let rows = db.get_account_balances(1).unwrap();
    assert_eq!(rows.len(), 2);
    assert_eq!(rows[0].name, "Bank");
    assert_eq!(rows[0].id, 2);
    assert_eq!(rows[0].account_type, "asset");
    assert_eq!(rows[0].opening_balance, 5000);
    assert_eq!(rows[0].balance, 5005);
    assert_eq!(rows[0].container_id, 1);
    assert_eq!(rows[0].created_at, T0);
    assert_eq!(rows[1].name, "Cash");
    assert_eq!(rows[1].balance, 1000);
    assert!(db.get_account_balances(2).unwrap().is_empty());
}

#[test]
fn balance_that_does_not_fit_is_an_overflow() {
    let mut db = store();
    db.add_transaction_at(entry(i64::MAX, 1), T0).unwrap();
    assert_eq!(
        db.get_account_balances(1),
        Err(LedgerError::Storage(StorageFault::Overflow))
    );
    db.add_transaction_at(entry(-1000, 1), T0).unwrap();
    assert_eq!(balance(&db, 1), i64::MAX);
    db.add_transaction_at(entry(i64::MAX, 0), T0).unwrap();
    assert_eq!(db.get_all_time_balance(1), Err(LedgerError::Storage(StorageFault::Overflow)));
    db.add_transaction_at(entry(i64::MIN, 0), T0).unwrap();
    assert_eq!(db.get_all_time_balance(1), Ok(i64::MAX - 1001));
}

#[test]
fn identifiers_run_out() {
    let last = Transaction {
        id: i64::MAX - 1,
        amount: 1,
        description: "d".to_string(),
        category: "c".to_string(),
        date: T0.to_string(),
        container_id: 1,
        account_id: 0,
        transfer_id: 0,
        transfer_account_id: 0,
    };
    let mut db = Database::restore(Vec::new(), Vec::new(), Vec::new(), vec![last], T0).unwrap();
    assert_eq!(
        db.add_transfer_at(1, 1, 2, 5, None, T0),
        Err(LedgerError::Storage(StorageFault::Exhausted))
    );
    assert_eq!(db.add_transaction_at(entry(1, 0), T0).unwrap().id, i64::MAX);
    assert_eq!(
        db.add_transaction_at(entry(1, 0), T0),
        Err(LedgerError::Storage(StorageFault::Exhausted))
    );
    let full = Container {
        id: i64::MAX,
        name: "Personal".to_string(),
        created_at: T0.to_string(),
        is_default: true,
    };
    let account = Account {
        id: i64::MAX,
        name: "Cash".to_string(),
        account_type: "asset".to_string(),
        opening_balance: 0,
        container_id: i64::MAX,
        created_at: T0.to_string(),
    };
    let leg = |id: i64, amount: i64, account_id: i64, other: i64| Transaction {
        id,
        amount,
        description: "d".to_string(),
        category: "Transfer".to_string(),
        date: T0.to_string(),
        container_id: i64::MAX,
        account_id,
        transfer_id: i64::MAX,
        transfer_account_id: other,
    };
    let kinds: Vec<Category> = Vec::new();
    let mut db =
        Database::restore(vec![full], vec![account], kinds, vec![leg(1, -5, 1, 2), leg(2, 5, 2, 1)], T0)
            .unwrap();
    assert_eq!(
        db.add_container_at("Work".to_string(), T0),
        Err(LedgerError::Storage(StorageFault::Exhausted))
    );
    assert_eq!(
        db.add_account_at(i64::MAX, "Bank".to_string(), "asset".to_string(), 0, T0),
        Err(LedgerError::Storage(StorageFault::Exhausted))
    );
    assert_eq!(
        db.add_transfer_at(i64::MAX, 1, 2, 5, None, T0),
        Err(LedgerError::Storage(StorageFault::Exhausted))
    );
}
