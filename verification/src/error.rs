//! The failures that ledger operations report.

use vstd::prelude::*;

verus! {

/// Why a transfer request was refused before anything was written.
#[derive(Debug, Clone, Copy, PartialEq, Eq, Structural)]
pub enum TransferFault {
    /// Source and destination are the same account.
    SameAccount,
    /// The amount is zero or negative.
    NonPositiveAmount,
}

/// Why a month text was refused.
#[derive(Debug, Clone, Copy, PartialEq, Eq, Structural)]
pub enum PeriodFault {
    /// The text is not two parts joined by one hyphen.
    Format,
    /// The first part is not a year number.
    Year,
    /// The second part is not a number, or names no month the calendar holds.
    Month,
}

/// Why the store refused or could not complete an operation.
#[derive(Debug, Clone, Copy, PartialEq, Eq, Structural)]
pub enum StorageFault {
    /// The write would give two rows the same unique name.
    Conflict,
    /// No identifier is left to give to a new row.
    Exhausted,
    /// A total does not fit in a signed 64-bit amount of cents.
    Overflow,
    /// The rows handed over do not form a ledger.
    Corrupt,
}

/// A text that is no amount of money.
#[derive(Debug, Clone, Copy, PartialEq, Eq, Structural)]
pub enum AmountError {
    /// The text, once cleaned, is not a decimal number.
    NotANumber,
}

/// A text that is no date in any of the accepted formats.
#[derive(Debug, Clone, Copy, PartialEq, Eq, Structural)]
pub enum DateError {
    /// No format reads the text.
    Unsupported,
}

/// A failed ledger operation. No failed operation changes the store.
#[derive(Debug, Clone, Copy, PartialEq, Eq, Structural)]
pub enum LedgerError {
    /// Validation: bad transfer parameters.
    InvalidTransfer(TransferFault),
    /// Validation: a month text that names no calendar month.
    InvalidPeriod(PeriodFault),
    /// The default container or a default category cannot be deleted.
    ProtectedEntity,
    /// A transfer leg cannot be edited in place.
    ImmutableEntity,
    /// The identifier names no row.
    NotFound,
    /// The store could not carry the operation out.
    Storage(StorageFault),
}

impl LedgerError {
    /// Whether the caller can recover by correcting the input.
    pub open spec fn is_validation(self) -> bool {
        self is InvalidTransfer || self is InvalidPeriod
    }

    /// Whether the caller can recover by correcting the input.
    pub fn validation(&self) -> (r: bool)
        ensures
            r == self.is_validation(),
    {
        match self {
            LedgerError::InvalidTransfer(_) => true,
            LedgerError::InvalidPeriod(_) => true,
            _ => false,
        }
    }

    /// The text of the message shown for this failure.
    pub open spec fn message_text(self) -> Seq<char> {
        match self {
            LedgerError::InvalidTransfer(TransferFault::SameAccount) =>
                "Source and destination accounts must be different"@,
            LedgerError::InvalidTransfer(TransferFault::NonPositiveAmount) =>
                "Transfer amount must be positive"@,
            LedgerError::InvalidPeriod(PeriodFault::Format) => "Invalid month format"@,
            LedgerError::InvalidPeriod(PeriodFault::Year) => "Invalid year"@,
            LedgerError::InvalidPeriod(PeriodFault::Month) => "Invalid month"@,
            LedgerError::ProtectedEntity => "Cannot delete a default entry"@,
            LedgerError::ImmutableEntity => "Cannot update transfer transaction"@,
            LedgerError::NotFound => "No such row"@,
            LedgerError::Storage(StorageFault::Conflict) => "Name already in use"@,
            LedgerError::Storage(StorageFault::Exhausted) => "No identifier left"@,
            LedgerError::Storage(StorageFault::Overflow) => "Total out of range"@,
            LedgerError::Storage(StorageFault::Corrupt) => "Rows do not form a ledger"@,
        }
    }

    /// The message shown for this failure.
    pub fn message(&self) -> (s: String)
        ensures
            s@ == self.message_text(),
    {
        let text: &str = match self {
            LedgerError::InvalidTransfer(TransferFault::SameAccount) =>
                "Source and destination accounts must be different",
            LedgerError::InvalidTransfer(TransferFault::NonPositiveAmount) =>
                "Transfer amount must be positive",
            LedgerError::InvalidPeriod(PeriodFault::Format) => "Invalid month format",
            LedgerError::InvalidPeriod(PeriodFault::Year) => "Invalid year",
            LedgerError::InvalidPeriod(PeriodFault::Month) => "Invalid month",
            LedgerError::ProtectedEntity => "Cannot delete a default entry",
            LedgerError::ImmutableEntity => "Cannot update transfer transaction",
            LedgerError::NotFound => "No such row",
            LedgerError::Storage(StorageFault::Conflict) => "Name already in use",
            LedgerError::Storage(StorageFault::Exhausted) => "No identifier left",
            LedgerError::Storage(StorageFault::Overflow) => "Total out of range",
            LedgerError::Storage(StorageFault::Corrupt) => "Rows do not form a ledger",
        };
        text.to_owned()
    }
}

} // verus!
