//! CSV in and out: importing entries row by row, each failure kept to its
//! row, and exporting the entries of a container.

use crate::amount::{amount_text, amount_value, parse_amount, push_amount};
use crate::calendar::{read_date, reading, timestamp_text, Timestamp};
use crate::error::LedgerError;
use crate::ledger::{outcome, Ledger};
use crate::model::{ImportResult, TransactionView};
use crate::order::views_of;
use crate::store::Database;
use crate::text::{
    decimal_text, push_decimal, push_signed, push_str, signed_text, text_of, trim_text, trimmed,
};
use vstd::prelude::*;

verus! {

/// What the csv crate's reader yields for `text`, record by record: the
/// fields of a record, or the message of the error that stands in its place.
/// With `has_headers` the first record is taken as the header and left out.
pub uninterp spec fn csv_records(text: Seq<char>, has_headers: bool) -> Seq<
    Result<Seq<Seq<char>>, Seq<char>>,
>;

/// A record as texts.
pub open spec fn record_view(record: Result<Vec<String>, String>) -> Result<
    Seq<Seq<char>>,
    Seq<char>,
> {
    match record {
        Ok(fields) => Ok(views_of(fields@)),
        Err(message) => Err(message@),
    }
}

/// The records as texts.
pub open spec fn record_views(records: Seq<Result<Vec<String>, String>>) -> Seq<
    Result<Seq<Seq<char>>, Seq<char>>,
> {
    records.map_values(|r: Result<Vec<String>, String>| record_view(r))
}

/// `csv::ReaderBuilder` with `has_headers` set, reading `content`, and
/// `Reader::records` walked to its end: for each record its fields, for each
/// error what it displays.
#[verifier::external_body]
fn read_records(content: &str, has_headers: bool) -> (records: Vec<Result<Vec<String>, String>>)
    ensures
        record_views(records@) == csv_records(content@, has_headers),
{
    let mut reader =
        csv::ReaderBuilder::new().has_headers(has_headers).from_reader(content.as_bytes());
    reader.records().map(
        |r| match r {
            Ok(record) => Ok(record.iter().map(|field| field.to_string()).collect()),
            Err(e) => Err(e.to_string()),
        },
    ).collect()
}

/// The columns that an import reads, counted from 0.
#[derive(Debug, Clone, Copy, PartialEq, Eq, Structural)]
pub struct Columns {
    pub amount: usize,
    pub description: usize,
    pub category: usize,
    pub date: usize,
}

/// The field at `column`, or `default` where the record is shorter.
pub open spec fn cell(fields: Seq<Seq<char>>, column: int, default: Seq<char>) -> Seq<char> {
    if 0 <= column < fields.len() {
        fields[column]
    } else {
        default
    }
}

/// The number by which messages name the record at `index`: records are
/// counted from 1, and a skipped header counts as the first.
pub open spec fn row_number(index: int, skip_header: bool) -> int {
    if skip_header {
        index + 2
    } else {
        index + 1
    }
}

/// How every message of a refused row begins.
pub open spec fn row_prefix(number: int) -> Seq<char> {
    "Row "@ + decimal_text(number as nat) + ": "@
}

/// The message for a record that the reader could not make out.
pub open spec fn malformed_message(number: int, why: Seq<char>) -> Seq<char> {
    row_prefix(number) + "Failed to parse CSV - "@ + why
}

/// The message for an amount that is no number.
pub open spec fn amount_message(number: int, text: Seq<char>) -> Seq<char> {
    row_prefix(number) + "Invalid amount '"@ + text + "' - Cannot parse as number"@
}

/// The message for a date that no format reads.
pub open spec fn date_message(number: int, text: Seq<char>) -> Seq<char> {
    row_prefix(number) + "Invalid date '"@ + text + "' - Unsupported date format"@
}

/// The message for a row that the store refused.
pub open spec fn insert_message(number: int, e: LedgerError) -> Seq<char> {
    row_prefix(number) + "Failed to insert - "@ + e.message_text()
}

/// What becomes of one row of an import.
pub enum RowOutcome {
    /// The row was stored; this is the ledger with it.
    Stored(Ledger),
    /// The row was refused with this message; the ledger is as it was.
    Refused(Seq<char>),
}

/// What becomes of a row with the given cells, where `moment` is the reading
/// of its date: the amount is read first, then the date is looked at, then the
/// entry is stored as a plain entry without an account.
pub open spec fn row_outcome(
    ledger: Ledger,
    number: int,
    container: i64,
    amount: Seq<char>,
    description: Seq<char>,
    category: Seq<char>,
    date: Seq<char>,
    moment: Option<Timestamp>,
) -> RowOutcome {
    match amount_value(amount) {
        None => RowOutcome::Refused(amount_message(number, amount)),
        Some(cents) => match moment {
            None => RowOutcome::Refused(date_message(number, date)),
            Some(ts) => match ledger.record(
                cents as i64,
                description,
                category,
                timestamp_text(ts),
                container,
                0,
            ) {
                Ok(after) => RowOutcome::Stored(after),
                Err(e) => RowOutcome::Refused(insert_message(number, e)),
            },
        },
    }
}

/// What becomes of one record of an import: its cells are trimmed, a missing
/// description is "Imported", a missing category "Other".
pub open spec fn record_outcome(
    ledger: Ledger,
    number: int,
    container: i64,
    columns: Columns,
    record: Result<Seq<Seq<char>>, Seq<char>>,
) -> RowOutcome {
    match record {
        Err(why) => RowOutcome::Refused(malformed_message(number, why)),
        Ok(fields) => row_outcome(
            ledger,
            number,
            container,
            trimmed(cell(fields, columns.amount as int, ""@)),
            trimmed(cell(fields, columns.description as int, "Imported"@)),
            trimmed(cell(fields, columns.category as int, "Other"@)),
            trimmed(cell(fields, columns.date as int, ""@)),
            reading(trimmed(cell(fields, columns.date as int, ""@))),
        ),
    }
}

/// How far an import has come.
pub struct Progress {
    pub ledger: Ledger,
    pub stored: nat,
    pub errors: Seq<Seq<char>>,
}

/// The progress after one more row.
pub open spec fn advanced(before: Progress, outcome: RowOutcome) -> Progress {
    match outcome {
        RowOutcome::Stored(after) => Progress {
            ledger: after,
            stored: before.stored + 1,
            errors: before.errors,
        },
        RowOutcome::Refused(message) => Progress {
            ledger: before.ledger,
            stored: before.stored,
            errors: before.errors.push(message),
        },
    }
}

/// The progress after all of `records`, taken in order. A refused row stops
/// nothing: the rows before it stay stored and the rows after it are tried.
pub open spec fn imported(
    start: Ledger,
    container: i64,
    columns: Columns,
    skip_header: bool,
    records: Seq<Result<Seq<Seq<char>>, Seq<char>>>,
) -> Progress
    decreases records.len(),
{
    if records.len() == 0 {
        Progress { ledger: start, stored: 0, errors: Seq::empty() }
    } else {
        let before = imported(start, container, columns, skip_header, records.drop_last());
        advanced(
            before,
            record_outcome(
                before.ledger,
                row_number(records.len() - 1, skip_header),
                container,
                columns,
                records.last(),
            ),
        )
    }
}

/// Whether `result` and the store report the progress `p`.
pub open spec fn reports(result: ImportResult, after: Ledger, p: Progress) -> bool {
    &&& after == p.ledger
    &&& result.success_count == p.stored
    &&& result.error_count == p.errors.len()
    &&& views_of(result.errors@) == p.errors
}

/// How one entry is written in an export: identifier, amount with two
/// decimals, description, category and timestamp, with commas between and a
/// line feed behind.
pub open spec fn export_line(t: TransactionView) -> Seq<char> {
    signed_text(t.id as int) + seq![','] + amount_text(t.amount as int) + seq![','] + t.description
        + seq![','] + t.category + seq![','] + t.date + seq!['\n']
}

/// The lines of `rows`, one behind the other.
pub open spec fn export_lines(rows: Seq<TransactionView>) -> Seq<char>
    decreases rows.len(),
{
    if rows.len() == 0 {
        Seq::empty()
    } else {
        export_lines(rows.drop_last()) + export_line(rows.last())
    }
}

impl Ledger {
    /// The export of `container`: a header line, then its entries, the
    /// latest first.
    pub open spec fn export_text(self, container: i64) -> Seq<char> {
        "ID,Amount,Description,Category,Date\n"@ + export_lines(
            self.listed_entries(container, None),
        )
    }
}

/// The beginning of a message about row `number`.
fn message_start(number: u128, what: &str) -> (out: Vec<char>)
    ensures
        out@ == row_prefix(number as int) + what@,
{
    let mut out: Vec<char> = Vec::new();
    push_str(&mut out, "Row ");
    push_decimal(&mut out, number);
    push_str(&mut out, ": ");
    push_str(&mut out, what);
    assert(out@ =~= row_prefix(number as int) + what@);
    out
}

/// The trimmed field at `column`, or the trimmed `default` where the record
/// is shorter.
fn trimmed_cell(fields: &Vec<String>, column: usize, default: &str) -> (r: String)
    ensures
        r@ == trimmed(cell(views_of(fields@), column as int, default@)),
{
    if column < fields.len() {
        trim_text(fields[column].as_str())
    } else {
        trim_text(default)
    }
}

impl Database {
    /// Stores an imported row as a plain entry without an account.
    pub fn insert_imported_transaction(
        &mut self,
        container_id: i64,
        amount: i64,
        description: String,
        category: String,
        date: String,
    ) -> (r: Result<(), LedgerError>)
        requires
            old(self)@.wf(),
        ensures
            final(self)@.wf(),
            outcome(
                old(self)@,
                final(self)@,
                old(self)@.record(amount, description@, category@, date@, container_id, 0),
                r,
            ),
    {
        match self.insert_entry(amount, description, category, date, container_id, 0) {
            Ok(_) => Ok(()),
            Err(e) => Err(e),
        }
    }

    /// Imports one row, given its cells and the reading of its date: stores
    /// it as a plain entry without an account, or refuses it with a message
    /// that names the row.
    pub fn import_row(
        &mut self,
        number: u128,
        container_id: i64,
        amount: &str,
        description: String,
        category: String,
        date: &str,
        moment: Option<Timestamp>,
    ) -> (r: Result<(), String>)
        requires
            old(self)@.wf(),
            moment matches Some(ts) ==> ts.is_valid(),
        ensures
            final(self)@.wf(),
            match row_outcome(
                old(self)@,
                number as int,
                container_id,
                amount@,
                description@,
                category@,
                date@,
                moment,
            ) {
                RowOutcome::Stored(after) => r is Ok && final(self)@ == after,
                RowOutcome::Refused(message) => r matches Err(m) && m@ == message && final(self)@
                    == old(self)@,
            },
    {
        let cents = match parse_amount(amount) {
            Ok(c) => c,
            Err(_) => {
                let mut out = message_start(number, "Invalid amount '");
                push_str(&mut out, amount);
                push_str(&mut out, "' - Cannot parse as number");
                assert(out@ =~= amount_message(number as int, amount@));
                return Err(text_of(&out));
            },
        };
        let stamp = match moment {
            Some(ts) => ts.text(),
            None => {
                let mut out = message_start(number, "Invalid date '");
                push_str(&mut out, date);
                push_str(&mut out, "' - Unsupported date format");
                assert(out@ =~= date_message(number as int, date@));
                return Err(text_of(&out));
            },
        };
        match self.insert_imported_transaction(container_id, cents, description, category, stamp) {
            Ok(_) => Ok(()),
            Err(e) => {
                let mut out = message_start(number, "Failed to insert - ");
                let why = e.message();
                push_str(&mut out, why.as_str());
                assert(out@ =~= insert_message(number as int, e));
                Err(text_of(&out))
            },
        }
    }

    /// Imports records that were read from CSV text, one by one. A refused
    /// record stops nothing: the rows before it stay stored and the rows after
    /// it are tried.
    pub fn import_records(
        &mut self,
        records: Vec<Result<Vec<String>, String>>,
        container_id: i64,
        columns: Columns,
        skip_header: bool,
    ) -> (result: ImportResult)
        requires
            old(self)@.wf(),
        ensures
            final(self)@.wf(),
            reports(
                result,
                final(self)@,
                imported(old(self)@, container_id, columns, skip_header, record_views(records@)),
            ),
    {
        let ghost all = record_views(records@);
        let mut success_count: usize = 0;
        let mut errors: Vec<String> = Vec::new();
        let mut i: usize = 0;
        assert(all.take(0) =~= Seq::empty());
        assert(views_of(errors@) =~= Seq::<Seq<char>>::empty());
        while i < records.len()
            invariant
                i <= records.len(),
                all == record_views(records@),
                self@.wf(),
                success_count + errors@.len() == i,
                imported(old(self)@, container_id, columns, skip_header, all.take(i as int)) == (
                Progress {
                    ledger: self@,
                    stored: success_count as nat,
                    errors: views_of(errors@),
                }),
            decreases records.len() - i,
        {
            assert(all.take(i + 1).drop_last() =~= all.take(i as int));
            assert(all.take(i + 1).last() == record_view(records@[i as int]));
            let number: u128 = if skip_header {
                i as u128 + 2
            } else {
                i as u128 + 1
            };
            let ghost before = views_of(errors@);
            let outcome: Result<(), String> = match &records[i] {
                Ok(fields) => {
                    let amount = trimmed_cell(fields, columns.amount, "");
                    let description = trimmed_cell(fields, columns.description, "Imported");
                    let category = trimmed_cell(fields, columns.category, "Other");
                    let date = trimmed_cell(fields, columns.date, "");
                    let moment = read_date(date.as_str());
                    self.import_row(
                        number,
                        container_id,
                        amount.as_str(),
                        description,
                        category,
                        date.as_str(),
                        moment,
                    )
                },
                Err(why) => {
                    let mut out = message_start(number, "Failed to parse CSV - ");
                    push_str(&mut out, why.as_str());
                    assert(out@ =~= malformed_message(number as int, why@));
                    Err(text_of(&out))
                },
            };
            match outcome {
                Ok(_) => {
                    success_count += 1;
                },
                Err(message) => {
                    let ghost added = message@;
                    errors.push(message);
                    assert(views_of(errors@) =~= before.push(added));
                },
            }
            i += 1;
        }
        assert(all.take(records@.len() as int) =~= all);
        let error_count = errors.len();
        ImportResult { success_count, error_count, errors }
    }

    /// Imports CSV text into `container`: for each record the amount, the
    /// description, the category and the date are taken from the given
    /// columns. With `skip_header` the first record is the header. The import
    /// is not atomic: every row that can be stored is stored.
    pub fn import_transactions_from_csv(
        &mut self,
        csv_content: String,
        container_id: i64,
        amount_column: usize,
        description_column: usize,
        category_column: usize,
        date_column: usize,
        skip_header: bool,
    ) -> (result: ImportResult)
        requires
            old(self)@.wf(),
        ensures
            final(self)@.wf(),
            reports(
                result,
                final(self)@,
                imported(
                    old(self)@,
                    container_id,
                    (Columns {
                        amount: amount_column,
                        description: description_column,
                        category: category_column,
                        date: date_column,
                    }),
                    skip_header,
                    csv_records(csv_content@, skip_header),
                ),
            ),
    {
        let records = read_records(csv_content.as_str(), skip_header);
        let columns = Columns {
            amount: amount_column,
            description: description_column,
            category: category_column,
            date: date_column,
        };
        self.import_records(records, container_id, columns, skip_header)
    }

    /// The entries of `container` as CSV text: a header line, then one line
    /// for each entry, the latest first, the amount with two decimals.
    pub fn export_transactions_csv(&self, container_id: i64) -> (text: String)
        ensures
            text@ == self@.export_text(container_id),
    {
        let rows = self.get_transactions(container_id, None);
        let ghost all = views_of(rows@);
        let mut out: Vec<char> = Vec::new();
        push_str(&mut out, "ID,Amount,Description,Category,Date\n");
        let mut i: usize = 0;
        assert(out@ =~= "ID,Amount,Description,Category,Date\n"@ + export_lines(all.take(0)));
        while i < rows.len()
            invariant
                i <= rows.len(),
                all == views_of(rows@),
                out@ == "ID,Amount,Description,Category,Date\n"@ + export_lines(
                    all.take(i as int),
                ),
            decreases rows.len() - i,
        {
            let ghost before = out@;
            assert(all.take(i + 1).drop_last() =~= all.take(i as int));
            assert(all.take(i + 1).last() == rows@[i as int]@);
            let row = &rows[i];
            push_signed(&mut out, row.id);
            out.push(',');
            push_amount(&mut out, row.amount);
            out.push(',');
            push_str(&mut out, row.description.as_str());
            out.push(',');
            push_str(&mut out, row.category.as_str());
            out.push(',');
            push_str(&mut out, row.date.as_str());
            out.push('\n');
            assert(out@ =~= before + export_line(row@));
            assert(before + export_line(row@) =~= "ID,Amount,Description,Category,Date\n"@ + (
            export_lines(all.take(i as int)) + export_line(row@)));
            i += 1;
        }
        assert(all.take(rows@.len() as int) =~= all);
        text_of(&out)
    }
}

} // verus!
