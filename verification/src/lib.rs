//! A personal-ledger engine: containers of accounts, signed integer-cent
//! entries, double-entry transfers, balances and monthly reports, and a
//! tolerant CSV import.

pub mod accounts;
pub mod amount;
pub mod balances;
pub mod calendar;
pub mod categories;
pub mod chronology;
pub mod containers;
pub mod csv_io;
pub mod entries;
pub mod error;
pub mod laws;
pub mod ledger;
pub mod model;
pub mod order;
pub mod restore;
pub mod select;
pub mod selectors;
pub mod seqs;
pub mod store;
pub mod text;
pub mod totals;

pub use amount::{format_amount, parse_amount};
pub use calendar::{month_range, parse_date, Timestamp};
pub use csv_io::Columns;
pub use error::{AmountError, DateError, LedgerError, PeriodFault, StorageFault, TransferFault};
pub use ledger::Ledger;
pub use model::{
    Account, AccountBalance, BalanceSheetReport, Category, Container, ImportResult,
    NewTransaction, ProfitLossLine, ProfitLossReport, Transaction,
};
pub use store::Database;
