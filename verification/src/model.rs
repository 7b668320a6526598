//! The rows of the ledger and the values that reports are made of. Each row
//! type has a view that holds its texts as sequences of characters; contracts
//! speak of the views.

use crate::order::{views_of, Row, SortKey, SortKeyView, Sortable};
use crate::text::chars_of;
use vstd::prelude::*;

verus! {

/// A named ledger namespace: one set of books.
#[derive(Debug, Clone, PartialEq, Eq)]
pub struct Container {
    pub id: i64,
    pub name: String,
    pub created_at: String,
    pub is_default: bool,
}

/// A container as a mathematical value: its texts are sequences of characters.
pub struct ContainerView {
    pub id: i64,
    pub name: Seq<char>,
    pub created_at: Seq<char>,
    pub is_default: bool,
}

impl View for Container {
    type V = ContainerView;

    open spec fn view(&self) -> ContainerView {
        ContainerView {
            id: self.id,
            name: self.name@,
            created_at: self.created_at@,
            is_default: self.is_default,
        }
    }
}

impl Row for Container {
    fn copy_row(&self) -> (r: Container) {
        Container {
            id: self.id,
            name: self.name.clone(),
            created_at: self.created_at.clone(),
            is_default: self.is_default,
        }
    }
}

/// A named pool of money inside a container.
#[derive(Debug, Clone, PartialEq, Eq)]
pub struct Account {
    pub id: i64,
    pub name: String,
    pub account_type: String,
    pub opening_balance: i64,
    pub container_id: i64,
    pub created_at: String,
}

/// An account as a mathematical value.
pub struct AccountView {
    pub id: i64,
    pub name: Seq<char>,
    pub account_type: Seq<char>,
    pub opening_balance: i64,
    pub container_id: i64,
    pub created_at: Seq<char>,
}

impl View for Account {
    type V = AccountView;

    open spec fn view(&self) -> AccountView {
        AccountView {
            id: self.id,
            name: self.name@,
            account_type: self.account_type@,
            opening_balance: self.opening_balance,
            container_id: self.container_id,
            created_at: self.created_at@,
        }
    }
}

impl Row for Account {
    fn copy_row(&self) -> (r: Account) {
        Account {
            id: self.id,
            name: self.name.clone(),
            account_type: self.account_type.clone(),
            opening_balance: self.opening_balance,
            container_id: self.container_id,
            created_at: self.created_at.clone(),
        }
    }
}

/// An account together with its balance at some point in time.
#[derive(Debug, Clone, PartialEq, Eq)]
pub struct AccountBalance {
    pub id: i64,
    pub name: String,
    pub account_type: String,
    pub opening_balance: i64,
    pub balance: i64,
    pub container_id: i64,
    pub created_at: String,
}

/// An account with its balance as a mathematical value.
pub struct AccountBalanceView {
    pub id: i64,
    pub name: Seq<char>,
    pub account_type: Seq<char>,
    pub opening_balance: i64,
    pub balance: i64,
    pub container_id: i64,
    pub created_at: Seq<char>,
}

impl View for AccountBalance {
    type V = AccountBalanceView;

    open spec fn view(&self) -> AccountBalanceView {
        AccountBalanceView {
            id: self.id,
            name: self.name@,
            account_type: self.account_type@,
            opening_balance: self.opening_balance,
            balance: self.balance,
            container_id: self.container_id,
            created_at: self.created_at@,
        }
    }
}

/// A named classification of entries, of type `income` or `expense`.
#[derive(Debug, Clone, PartialEq, Eq)]
pub struct Category {
    pub name: String,
    pub category_type: String,
    pub is_default: bool,
}

/// A category as a mathematical value.
pub struct CategoryView {
    pub name: Seq<char>,
    pub category_type: Seq<char>,
    pub is_default: bool,
}

impl View for Category {
    type V = CategoryView;

    open spec fn view(&self) -> CategoryView {
        CategoryView {
            name: self.name@,
            category_type: self.category_type@,
            is_default: self.is_default,
        }
    }
}

impl Row for Category {
    fn copy_row(&self) -> (r: Category) {
        Category {
            name: self.name.clone(),
            category_type: self.category_type.clone(),
            is_default: self.is_default,
        }
    }
}

/// One ledger entry. The amount is in cents: negative for money going out,
/// positive for money coming in. `account_id`, `transfer_id` and
/// `transfer_account_id` are 0 where the entry has none.
#[derive(Debug, Clone, PartialEq, Eq)]
pub struct Transaction {
    pub id: i64,
    pub amount: i64,
    pub description: String,
    pub category: String,
    pub date: String,
    pub container_id: i64,
    pub account_id: i64,
    pub transfer_id: i64,
    pub transfer_account_id: i64,
}

/// An entry as a mathematical value.
pub struct TransactionView {
    pub id: i64,
    pub amount: i64,
    pub description: Seq<char>,
    pub category: Seq<char>,
    pub date: Seq<char>,
    pub container_id: i64,
    pub account_id: i64,
    pub transfer_id: i64,
    pub transfer_account_id: i64,
}

impl View for Transaction {
    type V = TransactionView;

    open spec fn view(&self) -> TransactionView {
        TransactionView {
            id: self.id,
            amount: self.amount,
            description: self.description@,
            category: self.category@,
            date: self.date@,
            container_id: self.container_id,
            account_id: self.account_id,
            transfer_id: self.transfer_id,
            transfer_account_id: self.transfer_account_id,
        }
    }
}

impl Row for Transaction {
    fn copy_row(&self) -> (r: Transaction) {
        Transaction {
            id: self.id,
            amount: self.amount,
            description: self.description.clone(),
            category: self.category.clone(),
            date: self.date.clone(),
            container_id: self.container_id,
            account_id: self.account_id,
            transfer_id: self.transfer_id,
            transfer_account_id: self.transfer_account_id,
        }
    }
}

/// What a caller supplies to record a plain entry.
#[derive(Debug, Clone, PartialEq, Eq)]
pub struct NewTransaction {
    pub amount: i64,
    pub description: Option<String>,
    pub category: Option<String>,
    pub container_id: i64,
    pub account_id: i64,
}

/// One line of a profit-and-loss report: a category label and the sum of the
/// magnitudes of its entries.
#[derive(Debug, Clone, PartialEq, Eq)]
pub struct ProfitLossLine {
    pub category: String,
    pub total: i64,
}

/// A report line as a mathematical value.
pub struct ProfitLossLineView {
    pub category: Seq<char>,
    pub total: i64,
}

impl View for ProfitLossLine {
    type V = ProfitLossLineView;

    open spec fn view(&self) -> ProfitLossLineView {
        ProfitLossLineView { category: self.category@, total: self.total }
    }
}

/// Income and expense of one container over one calendar month.
#[derive(Debug, Clone, PartialEq, Eq)]
pub struct ProfitLossReport {
    pub start_date: String,
    pub end_date: String,
    pub income: Vec<ProfitLossLine>,
    pub expense: Vec<ProfitLossLine>,
    pub total_income: i64,
    pub total_expense: i64,
    pub net_income: i64,
}

/// A profit-and-loss report as a mathematical value.
pub struct ProfitLossReportView {
    pub start_date: Seq<char>,
    pub end_date: Seq<char>,
    pub income: Seq<ProfitLossLineView>,
    pub expense: Seq<ProfitLossLineView>,
    pub total_income: i64,
    pub total_expense: i64,
    pub net_income: i64,
}

impl View for ProfitLossReport {
    type V = ProfitLossReportView;

    open spec fn view(&self) -> ProfitLossReportView {
        ProfitLossReportView {
            start_date: self.start_date@,
            end_date: self.end_date@,
            income: views_of(self.income@),
            expense: views_of(self.expense@),
            total_income: self.total_income,
            total_expense: self.total_expense,
            net_income: self.net_income,
        }
    }
}

/// The accounts of one container with their balances at the end of a month,
/// in three buckets.
#[derive(Debug, Clone, PartialEq, Eq)]
pub struct BalanceSheetReport {
    pub as_of: String,
    pub assets: Vec<AccountBalance>,
    pub liabilities: Vec<AccountBalance>,
    pub equity: Vec<AccountBalance>,
    pub total_assets: i64,
    pub total_liabilities: i64,
    pub total_equity: i64,
}

/// A balance sheet as a mathematical value.
pub struct BalanceSheetReportView {
    pub as_of: Seq<char>,
    pub assets: Seq<AccountBalanceView>,
    pub liabilities: Seq<AccountBalanceView>,
    pub equity: Seq<AccountBalanceView>,
    pub total_assets: i64,
    pub total_liabilities: i64,
    pub total_equity: i64,
}

impl View for BalanceSheetReport {
    type V = BalanceSheetReportView;

    open spec fn view(&self) -> BalanceSheetReportView {
        BalanceSheetReportView {
            as_of: self.as_of@,
            assets: views_of(self.assets@),
            liabilities: views_of(self.liabilities@),
            equity: views_of(self.equity@),
            total_assets: self.total_assets,
            total_liabilities: self.total_liabilities,
            total_equity: self.total_equity,
        }
    }
}

/// What a CSV import did: how many rows were stored, how many were refused,
/// and one message for each refused row.
#[derive(Debug, Clone, PartialEq, Eq)]
pub struct ImportResult {
    pub success_count: usize,
    pub error_count: usize,
    pub errors: Vec<String>,
}

impl Sortable for Container {
    /// Containers are listed with the default one first, then by the time
    /// they were created.
    open spec fn key_of(v: ContainerView) -> SortKeyView {
        SortKeyView {
            rank: if v.is_default {
                0
            } else {
                1
            },
            text: v.created_at,
        }
    }

    open spec fn descending() -> bool {
        false
    }

    fn sort_key(&self) -> (k: SortKey) {
        SortKey {
            rank: if self.is_default {
                0
            } else {
                1
            },
            text: chars_of(self.created_at.as_str()),
        }
    }

    fn larger_first() -> (d: bool) {
        false
    }
}

impl Sortable for Account {
    /// Accounts are listed by name.
    open spec fn key_of(v: AccountView) -> SortKeyView {
        SortKeyView { rank: 0, text: v.name }
    }

    open spec fn descending() -> bool {
        false
    }

    fn sort_key(&self) -> (k: SortKey) {
        SortKey { rank: 0, text: chars_of(self.name.as_str()) }
    }

    fn larger_first() -> (d: bool) {
        false
    }
}

impl Sortable for Category {
    /// Categories are listed with the default ones first, then by name.
    open spec fn key_of(v: CategoryView) -> SortKeyView {
        SortKeyView {
            rank: if v.is_default {
                0
            } else {
                1
            },
            text: v.name,
        }
    }

    open spec fn descending() -> bool {
        false
    }

    fn sort_key(&self) -> (k: SortKey) {
        SortKey {
            rank: if self.is_default {
                0
            } else {
                1
            },
            text: chars_of(self.name.as_str()),
        }
    }

    fn larger_first() -> (d: bool) {
        false
    }
}

impl Sortable for Transaction {
    /// Entries are listed with the latest timestamp first.
    open spec fn key_of(v: TransactionView) -> SortKeyView {
        SortKeyView { rank: 0, text: v.date }
    }

    open spec fn descending() -> bool {
        true
    }

    fn sort_key(&self) -> (k: SortKey) {
        SortKey { rank: 0, text: chars_of(self.date.as_str()) }
    }

    fn larger_first() -> (d: bool) {
        true
    }
}

impl Sortable for ProfitLossLine {
    /// Report lines are listed with the largest total first.
    open spec fn key_of(v: ProfitLossLineView) -> SortKeyView {
        SortKeyView { rank: v.total, text: Seq::empty() }
    }

    open spec fn descending() -> bool {
        true
    }

    fn sort_key(&self) -> (k: SortKey) {
        SortKey { rank: self.total, text: Vec::new() }
    }

    fn larger_first() -> (d: bool) {
        true
    }
}

impl Row for ProfitLossLine {
    fn copy_row(&self) -> (r: ProfitLossLine) {
        ProfitLossLine { category: self.category.clone(), total: self.total }
    }
}

} // verus!
