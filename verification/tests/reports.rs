use spent_ledger::error::{LedgerError, PeriodFault, StorageFault};
use spent_ledger::{Database, NewTransaction, ProfitLossLine};

const T0: &str = "2024-01-01 09:00:00";

fn put(db: &mut Database, amount: i64, category: &str, date: &str, account_id: i64) {
    db.add_transaction_at(
        NewTransaction {
            amount,
            description: None,
            category: Some(category.to_string()),
            container_id: 1,
            account_id,
        },
        date,
    )
    .unwrap();
}

fn march() -> Database {
    let mut db = Database::new_at(T0);
    db.add_category("Salary".to_string(), "income".to_string()).unwrap();
    db.add_category("Savings".to_string(), "neither".to_string()).unwrap();
    db.add_account_at(1, "Cash".to_string(), "asset".to_string(), 1000, T0).unwrap();
    db.add_account_at(1, "Card".to_string(), "liability".to_string(), -300, T0).unwrap();
    db.add_account_at(1, "Reserve".to_string(), "contra_asset".to_string(), 50, T0).unwrap();
    db.add_account_at(1, "Capital".to_string(), "equity".to_string(), 7, T0).unwrap();
    db.add_account_at(1, "Odd".to_string(), "Asset".to_string(), 1, T0).unwrap();
    put(&mut db, -1200, "Food & Dining", "2024-03-01 00:00:00", 1);
    put(&mut db, 250000, "Salary", "2024-03-01 09:00:00", 1);
    put(&mut db, -800, "Food & Dining", "2024-03-15 12:30:00", 2);
    put(&mut db, -4500, "Shopping", "2024-03-31 23:59:59", 2);
    put(&mut db, 300, "Shopping", "2024-03-20 00:00:00", 2);
    put(&mut db, -999, "Mystery", "2024-03-10 00:00:00", 1);
    put(&mut db, 1500, "Income", "2024-03-11 00:00:00", 1);
    put(&mut db, -70, "Savings", "2024-03-12 00:00:00", 1);
    put(&mut db, -5000, "Bills & Utilities", "2024-02-29 23:59:59", 1);
    put(&mut db, -6000, "Bills & Utilities", "2024-04-01 00:00:00", 1);
    db.add_transfer_at(1, 1, 2, 10000, None, "2024-03-05 00:00:00").unwrap();
    db
}

fn line(category: &str, total: i64) -> ProfitLossLine {
    ProfitLossLine { category: category.to_string(), total }
}

#[test]
fn flow_of_a_month_leaves_transfers_out() {
    let db = march();
    assert_eq!(db.get_balance_for_month(1, "2024-03".to_string()), Ok(-1200 + 250000 - 800 - 4500 + 300 - 999 + 1500 - 70));
    assert_eq!(db.get_balance_for_month(1, "2024-02".to_string()), Ok(-5000));
    assert_eq!(db.get_balance_for_month(1, "2024-04".to_string()), Ok(-6000));
    assert_eq!(db.get_balance_for_month(1, "2024-05".to_string()), Ok(0));
    assert_eq!(db.get_balance_for_month(1, "2024".to_string()), Ok(233231));
    assert_eq!(db.get_balance_for_month(2, "2024-03".to_string()), Ok(0));
    assert_eq!(db.get_balance_for_month(1, "bad".to_string()), Ok(0));
    assert_eq!(db.get_all_time_balance(1), Ok(233231));
    assert_eq!(db.get_all_time_balance(2), Ok(0));
}

#[test]
fn flow_of_the_current_month() {
    let mut db = Database::new_at(T0);
    db.add_transaction(NewTransaction {
        amount: 321,
        description: None,
        category: None,
        container_id: 1,
        account_id: 0,
    })
    .unwrap();
    put(&mut db, 1000, "Other", "1999-01-01 00:00:00", 0);
    db.add_transfer(1, 1, 2, 77, None).unwrap();
    assert_eq!(db.get_monthly_balance(1), Ok(321));
    assert_eq!(db.get_category_totals(1), Ok(vec![("Other".to_string(), 321)]));
}

#[test]
fn expense_of_a_month_by_label() {
    let db = march();
    assert_eq!(
        db.get_category_totals_for_month(1, "2024-03".to_string()),
        Ok(vec![
            ("Shopping".to_string(), 4800),
            ("Food & Dining".to_string(), 2000),
            ("Mystery".to_string(), 999),
        ])
    );
    assert_eq!(
        db.get_category_totals_for_month(1, "2024-02".to_string()),
        Ok(vec![("Bills & Utilities".to_string(), 5000)])
    );
    assert_eq!(db.get_category_totals_for_month(1, "2024-07".to_string()), Ok(vec![]));
    assert_eq!(db.get_category_totals_for_month(2, "2024-03".to_string()), Ok(vec![]));
}

#[test]
fn equal_totals_keep_the_order_of_first_entry() {
    let mut db = Database::new_at(T0);
    put(&mut db, -5, "b", "2024-03-01 00:00:00", 0);
    put(&mut db, -5, "a", "2024-03-02 00:00:00", 0);
    put(&mut db, -9, "c", "2024-03-03 00:00:00", 0);
    put(&mut db, 5, "d", "2024-03-04 00:00:00", 0);
    assert_eq!(
        db.get_category_totals_for_month(1, "2024-03".to_string()),
        Ok(vec![
            ("c".to_string(), 9),
            ("b".to_string(), 5),
            ("a".to_string(), 5),
            ("d".to_string(), 5),
        ])
    );
}

#[test]
fn profit_and_loss_of_a_month() {
    let db = march();
    let report = db.get_profit_and_loss_for_month(1, "2024-03".to_string()).unwrap();
    assert_eq!(report.start_date, "2024-03-01 00:00:00");
    assert_eq!(report.end_date, "2024-03-31 23:59:59");
    assert_eq!(report.income, vec![line("Salary", 250000), line("Income", 1500)]);
    assert_eq!(
        report.expense,
        vec![line("Shopping", 4800), line("Food & Dining", 2000), line("Mystery", 999)]
    );
    assert_eq!(report.total_income, 251500);
    assert_eq!(report.total_expense, 7799);
    assert_eq!(report.net_income, 243701);
    assert_eq!(report.net_income, report.total_income - report.total_expense);
    assert!(report.total_income >= 0 && report.total_expense >= 0);
}

#[test]
fn profit_and_loss_of_months_at_the_edges() {
    let db = march();
    let february = db.get_profit_and_loss_for_month(1, "2024-02".to_string()).unwrap();
    assert_eq!(february.end_date, "2024-02-29 23:59:59");
    assert_eq!(february.expense, vec![line("Bills & Utilities", 5000)]);
    assert!(february.income.is_empty());
    assert_eq!(february.net_income, -5000);
    let april = db.get_profit_and_loss_for_month(1, "2024-04".to_string()).unwrap();
    assert_eq!(april.expense, vec![line("Bills & Utilities", 6000)]);
    assert_eq!(april.total_expense, 6000);
    let empty = db.get_profit_and_loss_for_month(1, "2023-03".to_string()).unwrap();
    assert!(empty.income.is_empty() && empty.expense.is_empty());
    assert_eq!((empty.total_income, empty.total_expense, empty.net_income), (0, 0, 0));
    let other = db.get_profit_and_loss_for_month(7, "2024-03".to_string()).unwrap();
    assert_eq!((other.total_income, other.total_expense, other.net_income), (0, 0, 0));
}

#[test]
fn profit_and_loss_of_bad_months() {
    let db = march();
    assert_eq!(
        db.get_profit_and_loss_for_month(1, "bad".to_string()),
        Err(LedgerError::InvalidPeriod(PeriodFault::Format))
    );
    assert_eq!(
        db.get_profit_and_loss_for_month(1, "x-03".to_string()),
        Err(LedgerError::InvalidPeriod(PeriodFault::Year))
    );
    assert_eq!(
        db.get_profit_and_loss_for_month(1, "2024-13".to_string()),
        Err(LedgerError::InvalidPeriod(PeriodFault::Month))
    );
    assert_eq!(
        db.get_balance_sheet_for_month(1, "2024/03".to_string()),
        Err(LedgerError::InvalidPeriod(PeriodFault::Format))
    );
}

#[test]
fn profit_and_loss_that_does_not_fit() {
    let mut db = Database::new_at(T0);
    put(&mut db, i64::MAX, "Income", "2024-03-01 00:00:00", 0);
    let report = db.get_profit_and_loss_for_month(1, "2024-03".to_string()).unwrap();
    assert_eq!(report.total_income, i64::MAX);
    assert_eq!(report.net_income, i64::MAX);
    put(&mut db, 1, "Income", "2024-03-02 00:00:00", 0);
    assert_eq!(
        db.get_profit_and_loss_for_month(1, "2024-03".to_string()),
        Err(LedgerError::Storage(StorageFault::Overflow))
    );
    let mut db = Database::new_at(T0);
    put(&mut db, i64::MIN, "Other", "2024-03-01 00:00:00", 0);
    assert_eq!(
        db.get_profit_and_loss_for_month(1, "2024-03".to_string()),
        Err(LedgerError::Storage(StorageFault::Overflow))
    );
    assert_eq!(
        db.get_category_totals_for_month(1, "2024-03".to_string()),
        Err(LedgerError::Storage(StorageFault::Overflow))
    );
    let mut db = Database::new_at(T0);
    put(&mut db, i64::MAX, "a", "2024-03-01 00:00:00", 0);
    put(&mut db, -i64::MAX, "b", "2024-03-01 00:00:00", 0);
    assert_eq!(
        db.get_category_totals_for_month(1, "2024-03".to_string()),
        Ok(vec![("a".to_string(), i64::MAX), ("b".to_string(), i64::MAX)])
    );
    assert_eq!(
        db.get_profit_and_loss_for_month(1, "2024-03".to_string()),
        Err(LedgerError::Storage(StorageFault::Overflow))
    );
}

#[test]
fn balance_sheet_at_the_end_of_a_month() {
    let db = march();
    let sheet = db.get_balance_sheet_for_month(1, "2024-03".to_string()).unwrap();
    assert_eq!(sheet.as_of, "2024-03-31 23:59:59");
    let names = |rows: &Vec<spent_ledger::AccountBalance>| {
        rows.iter().map(|a| (a.name.clone(), a.balance)).collect::<Vec<(String, i64)>>()
    };
    let cash = 1000 - 1200 + 250000 - 999 + 1500 - 70 - 5000 - 10000;
    let card = -300 - 800 - 4500 + 300 + 10000;
    assert_eq!(names(&sheet.assets), vec![("Cash".to_string(), cash), ("Reserve".to_string(), 50)]);
    assert_eq!(names(&sheet.liabilities), vec![("Card".to_string(), card)]);
    assert_eq!(names(&sheet.equity), vec![("Capital".to_string(), 7), ("Odd".to_string(), 1)]);
    assert_eq!(sheet.total_assets, cash + 50);
    assert_eq!(sheet.total_liabilities, card);
    assert_eq!(sheet.total_equity, 8);
}

#[test]
fn balance_sheet_is_a_snapshot_in_time() {
    let db = march();
    let february = db.get_balance_sheet_for_month(1, "2024-02".to_string()).unwrap();
    assert_eq!(february.as_of, "2024-02-29 23:59:59");
    assert_eq!(february.total_assets, 1000 - 5000 + 50);
    assert_eq!(february.total_liabilities, -300);
    let january = db.get_balance_sheet_for_month(1, "2024-01".to_string()).unwrap();
    assert_eq!(january.total_assets, 1050);
    let april = db.get_balance_sheet_for_month(1, "2024-04".to_string()).unwrap();
    let now = db.get_account_balances(1).unwrap();
    let cash = now.iter().find(|a| a.name == "Cash").unwrap().balance;
    assert_eq!(april.assets[0].balance, cash);
    assert_eq!(cash, 1000 - 1200 + 250000 - 999 + 1500 - 70 - 5000 - 6000 - 10000);
    let nothing = db.get_balance_sheet_for_month(3, "2024-03".to_string()).unwrap();
    assert!(nothing.assets.is_empty() && nothing.liabilities.is_empty() && nothing.equity.is_empty());
    assert_eq!((nothing.total_assets, nothing.total_liabilities, nothing.total_equity), (0, 0, 0));
}

#[test]
fn balance_sheet_that_does_not_fit() {
    let mut db = Database::new_at(T0);
    db.add_account_at(1, "A".to_string(), "asset".to_string(), i64::MAX, T0).unwrap();
    db.add_account_at(1, "B".to_string(), "asset".to_string(), 1, T0).unwrap();
    db.add_account_at(1, "C".to_string(), "liability".to_string(), 0, T0).unwrap();
    assert_eq!(
        db.get_balance_sheet_for_month(1, "2024-03".to_string()),
        Err(LedgerError::Storage(StorageFault::Overflow))
    );
    db.update_account(2, "B".to_string(), 0).unwrap();
    let sheet = db.get_balance_sheet_for_month(1, "2024-03".to_string()).unwrap();
    assert_eq!(sheet.total_assets, i64::MAX);
    put(&mut db, -1, "Other", "2024-03-01 00:00:00", 3);
    put(&mut db, i64::MIN, "Other", "2024-03-01 00:00:00", 3);
    assert_eq!(
        db.get_balance_sheet_for_month(1, "2024-03".to_string()),
        Err(LedgerError::Storage(StorageFault::Overflow))
    );
    let before = db.get_balance_sheet_for_month(1, "2024-02".to_string()).unwrap();
    assert_eq!(before.total_liabilities, 0);
}

#[test]
fn months_with_entries() {
    let db = march();
    assert_eq!(db.get_available_months(1), vec!["2024-04", "2024-03", "2024-02"]);
    assert!(db.get_available_months(2).is_empty());
    let mut db = Database::new_at(T0);
    put(&mut db, 1, "Other", "2023-12-31 00:00:00", 0);
    put(&mut db, 1, "Other", "2024-01-01 00:00:00", 0);
    put(&mut db, 1, "Other", "2023-12-01 00:00:00", 0);
    put(&mut db, 1, "Other", "short", 0);
    assert_eq!(db.get_available_months(1), vec!["2024-01", "2023-12"]);
}
