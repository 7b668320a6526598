use spent_ledger::calendar::Timestamp;
use spent_ledger::csv_io::Columns;
use spent_ledger::{Database, ImportResult, NewTransaction, Transaction};

const T0: &str = "2024-01-01 09:00:00";

fn columns() -> Columns {
    Columns { amount: 0, description: 1, category: 2, date: 3 }
}

fn import(db: &mut Database, text: &str, skip_header: bool) -> ImportResult {
    db.import_transactions_from_csv(text.to_string(), 1, 0, 1, 2, 3, skip_header)
}

#[test]
fn import_normalizes_amount_and_date() {
    let mut db = Database::new_at(T0);
    let result = import(&mut db, "\"$1,234.50\",Rent,Bills & Utilities,03/15/2024\n", false);
    assert_eq!(result, ImportResult { success_count: 1, error_count: 0, errors: vec![] });
    assert_eq!(
        db.all_transactions(),
        vec![Transaction {
            id: 1,
            amount: 123450,
            description: "Rent".to_string(),
            category: "Bills & Utilities".to_string(),
            date: "2024-03-15 00:00:00".to_string(),
            container_id: 1,
            account_id: 0,
            transfer_id: 0,
            transfer_account_id: 0,
        }]
    );
}

#[test]
fn import_keeps_a_bad_row_to_itself() {
    let mut db = Database::new_at(T0);
    let text = "10.00,First,Other,2024-03-01\nabc,Second,Other,2024-03-02\n30.00,Third,Other,2024-03-03\n";
    let result = import(&mut db, text, false);
    assert_eq!(result.success_count, 2);
    assert_eq!(result.error_count, 1);
    assert_eq!(result.errors, vec!["Row 2: Invalid amount 'abc' - Cannot parse as number"]);
    let rows = db.all_transactions();
    assert_eq!(rows.len(), 2);
    assert_eq!((rows[0].id, rows[0].amount, rows[0].description.as_str()), (1, 1000, "First"));
    assert_eq!((rows[1].id, rows[1].amount, rows[1].description.as_str()), (2, 3000, "Third"));
    assert_eq!(db.get_transactions(1, None).len(), 2);
}

#[test]
fn import_counts_a_skipped_header() {
    let mut db = Database::new_at(T0);
    let text = "Amount,Description,Category,Date\n10.00,First,Other,2024-03-01\nabc,Second,Other,2024-03-02\n30.00,Third,Other,2024-03-03\n";
    let result = import(&mut db, text, true);
    assert_eq!(result.success_count, 2);
    assert_eq!(result.error_count, 1);
    assert_eq!(result.errors, vec!["Row 3: Invalid amount 'abc' - Cannot parse as number"]);
    assert_eq!(db.all_transactions().len(), 2);
}

#[test]
fn import_reads_a_header_as_a_row_when_told_to() {
    let mut db = Database::new_at(T0);
    let text = "Amount,Description,Category,Date\n10.00,First,Other,2024-03-01\n";
    let result = import(&mut db, text, false);
    assert_eq!(result.success_count, 1);
    assert_eq!(result.errors, vec!["Row 1: Invalid amount 'Amount' - Cannot parse as number"]);
}

#[test]
fn import_reports_dates_that_no_format_reads() {
    let mut db = Database::new_at(T0);
    let text = "1,a,b,2024-13-01\n2,c,d, 2024-03-02 \nx,e,f,never\n";
    let result = import(&mut db, text, false);
    assert_eq!(result.success_count, 1);
    assert_eq!(result.error_count, 2);
    assert_eq!(
        result.errors,
        vec![
            "Row 1: Invalid date '2024-13-01' - Unsupported date format",
            "Row 3: Invalid amount 'x' - Cannot parse as number",
        ]
    );
    assert_eq!(db.all_transactions()[0].date, "2024-03-02 00:00:00");
    assert_eq!(db.all_transactions()[0].amount, 200);
}

#[test]
fn import_trims_cells_and_fills_missing_ones() {
    let mut db = Database::new_at(T0);
    let result = db.import_transactions_from_csv(
        " 5 ,  Tea  , Food & Dining ,2024-03-01\n".to_string(),
        1,
        0,
        1,
        2,
        3,
        false,
    );
    assert_eq!(result.success_count, 1);
    let result = db.import_transactions_from_csv(
        "2024-03-02,7.25\n".to_string(),
        1,
        1,
        5,
        6,
        0,
        false,
    );
    assert_eq!(result.success_count, 1);
    let result = db.import_transactions_from_csv("2024-03-02,7.25\n".to_string(), 1, 9, 5, 6, 0, false);
    assert_eq!(result.errors, vec!["Row 1: Invalid amount '' - Cannot parse as number"]);
    let result = db.import_transactions_from_csv("2024-03-02,7.25\n".to_string(), 1, 1, 5, 6, 9, false);
    assert_eq!(result.errors, vec!["Row 1: Invalid date '' - Unsupported date format"]);
    let rows = db.all_transactions();
    assert_eq!(rows.len(), 2);
    assert_eq!(rows[0].description, "Tea");
    assert_eq!(rows[0].category, "Food & Dining");
    assert_eq!(rows[0].amount, 500);
    assert_eq!(rows[1].description, "Imported");
    assert_eq!(rows[1].category, "Other");
    assert_eq!(rows[1].amount, 725);
    assert_eq!(rows[1].account_id, 0);
}

#[test]
fn import_reports_records_of_another_length() {
    let mut db = Database::new_at(T0);
    let text = "1,a,b,2024-03-01\n2,c\n3,e,f,2024-03-03\n";
    let result = import(&mut db, text, false);
    assert_eq!(result.success_count, 2);
    assert_eq!(result.error_count, 1);
    assert_eq!(result.errors.len(), 1);
    assert!(result.errors[0].starts_with("Row 2: Failed to parse CSV - "), "{}", result.errors[0]);
    assert!(result.errors[0].contains("found record with 2 fields"), "{}", result.errors[0]);
}

#[test]
fn import_into_a_missing_container_stores_nothing() {
    let mut db = Database::new_at(T0);
    let result = db.import_transactions_from_csv(
        "1,a,b,2024-03-01\n2,c,d,2024-03-02\n".to_string(),
        5,
        0,
        1,
        2,
        3,
        false,
    );
    assert_eq!(result.success_count, 0);
    assert_eq!(result.error_count, 2);
    assert_eq!(result.errors[0], "Row 1: Failed to insert - No such row");
    assert_eq!(result.errors[1], "Row 2: Failed to insert - No such row");
    assert!(db.all_transactions().is_empty());
}

#[test]
fn import_of_nothing() {
    let mut db = Database::new_at(T0);
    assert_eq!(import(&mut db, "", false), ImportResult { success_count: 0, error_count: 0, errors: vec![] });
    assert_eq!(import(&mut db, "", true), ImportResult { success_count: 0, error_count: 0, errors: vec![] });
    assert_eq!(
        import(&mut db, "Amount,Description,Category,Date\n", true),
        ImportResult { success_count: 0, error_count: 0, errors: vec![] }
    );
}

#[test]
fn import_of_quoted_cells() {
    let mut db = Database::new_at(T0);
    let text = "\"1,000.00\",\"Dinner, with wine\",\"Food & Dining\",\"2024-03-01 19:30:00\"\n";
    let result = import(&mut db, text, false);
    assert_eq!(result.success_count, 1);
    let row = &db.all_transactions()[0];
    assert_eq!(row.amount, 100000);
    assert_eq!(row.description, "Dinner, with wine");
    assert_eq!(row.date, "2024-03-01 19:30:00");
}

#[test]
fn import_row_by_row() {
    let mut db = Database::new_at(T0);
    let noon = Timestamp { year: 2024, month: 3, day: 15, hour: 12, minute: 0, second: 0, nanosecond: 0 };
    assert_eq!(
        db.import_row(4, 1, "$1,234.50", "Rent".to_string(), "Bills".to_string(), "whatever", Some(noon)),
        Ok(())
    );
    assert_eq!(db.all_transactions()[0].amount, 123450);
    assert_eq!(db.all_transactions()[0].date, "2024-03-15 12:00:00");
    assert_eq!(
        db.import_row(12, 1, "1O", "a".to_string(), "b".to_string(), "d", Some(noon)),
        Err("Row 12: Invalid amount '1O' - Cannot parse as number".to_string())
    );
    assert_eq!(
        db.import_row(0, 1, "10", "a".to_string(), "b".to_string(), "31/31/31", None),
        Err("Row 0: Invalid date '31/31/31' - Unsupported date format".to_string())
    );
    assert_eq!(
        db.import_row(1000000, 1, "x", "a".to_string(), "b".to_string(), "y", None),
        Err("Row 1000000: Invalid amount 'x' - Cannot parse as number".to_string())
    );
    assert_eq!(
        db.import_row(7, 3, "1", "a".to_string(), "b".to_string(), "y", Some(noon)),
        Err("Row 7: Failed to insert - No such row".to_string())
    );
    assert_eq!(db.all_transactions().len(), 1);
}

#[test]
fn import_of_records_read_elsewhere() {
    let mut db = Database::new_at(T0);
    let records = vec![
        Ok(vec!["1".to_string(), "a".to_string(), "b".to_string(), "2024-03-01".to_string()]),
        Err("broken".to_string()),
        Ok(vec!["2".to_string()]),
        Ok(vec![]),
        Ok(vec!["3".to_string(), "c".to_string(), "d".to_string(), "01/02/2024".to_string()]),
    ];
    let result = db.import_records(records, 1, columns(), true);
    assert_eq!(result.success_count, 2);
    assert_eq!(result.error_count, 3);
    assert_eq!(
        result.errors,
        vec![
            "Row 3: Failed to parse CSV - broken",
            "Row 4: Invalid date '' - Unsupported date format",
            "Row 5: Invalid amount '' - Cannot parse as number",
        ]
    );
    assert_eq!(db.all_transactions()[1].date, "2024-01-02 00:00:00");
}

#[test]
fn export_writes_a_header_and_the_entries() {
    let mut db = Database::new_at(T0);
    assert_eq!(db.export_transactions_csv(1), "ID,Amount,Description,Category,Date\n");
    let mut put = |amount: i64, description: &str, date: &str| {
        db.add_transaction_at(
            NewTransaction {
                amount,
                description: Some(description.to_string()),
                category: None,
                container_id: 1,
                account_id: 0,
            },
            date,
        )
        .unwrap();
    };
    put(-1250, "Lunch", "2024-03-01 12:00:00");
    put(5, "Found", "2024-03-03 08:00:00");
    put(123450, "Pay", "2024-03-02 09:00:00");
    db.add_transfer_at(1, 1, 2, 100, None, "2024-02-01 00:00:00").unwrap();
    assert_eq!(
        db.export_transactions_csv(1),
        "ID,Amount,Description,Category,Date\n\
         2,0.05,Found,Other,2024-03-03 08:00:00\n\
         3,1234.50,Pay,Other,2024-03-02 09:00:00\n\
         1,-12.50,Lunch,Other,2024-03-01 12:00:00\n\
         4,-1.00,Transfer,Transfer,2024-02-01 00:00:00\n\
         5,1.00,Transfer,Transfer,2024-02-01 00:00:00\n"
    );
    assert_eq!(db.export_transactions_csv(2), "ID,Amount,Description,Category,Date\n");
}

#[test]
fn export_is_read_back_by_import() {
    let mut db = Database::new_at(T0);
    for (k, amount) in [-1250i64, 5, 123450, 0, -1].iter().enumerate() {
        db.add_transaction_at(
            NewTransaction {
                amount: *amount,
                description: Some(format!("entry {}", k)),
                category: Some("Other".to_string()),
                container_id: 1,
                account_id: 0,
            },
            &format!("2024-03-0{} 00:00:00", k + 1),
        )
        .unwrap();
    }
    let text = db.export_transactions_csv(1);
    let mut copy = Database::new_at(T0);
    let result = copy.import_transactions_from_csv(text, 1, 1, 2, 3, 4, true);
    assert_eq!(result, ImportResult { success_count: 5, error_count: 0, errors: vec![] });
    let mut amounts: Vec<i64> = copy.all_transactions().iter().map(|t| t.amount).collect();
    amounts.reverse();
    assert_eq!(amounts, vec![-1250, 5, 123450, 0, -1]);
    assert_eq!(copy.get_all_time_balance(1), db.get_all_time_balance(1));
}
