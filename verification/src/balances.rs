//! Balances: the flow of a container, the balance of each account, and the
//! balance sheet at the end of a month.

use crate::calendar::{month_bounds, month_range, month_text, Timestamp};
use crate::error::{LedgerError, StorageFault};
use crate::ledger::{
    account_is, amount_of, entry_on, entry_on_until, plain_in, plain_in_month, Ledger,
};
use crate::model::{
    Account, AccountBalance, AccountBalanceView, AccountView, BalanceSheetReport,
    BalanceSheetReportView,
};
use crate::order::views_of;
use crate::select::{first_place, total_amount};
use crate::selectors::{AccountSelector, EntrySelector};
use crate::seqs::{ascending_distinct, count_where, keep_where, sum_where};
use crate::store::Database;
use crate::text::chars_of;
use vstd::prelude::*;

verus! {

/// Whether `total` fits in a signed 64-bit amount of cents.
pub open spec fn fits(total: int) -> bool {
    i64::MIN <= total <= i64::MAX
}

/// Whether `r` is `total` where `total` fits, and the failure where it does
/// not.
pub open spec fn is_total(r: Result<i64, LedgerError>, total: int) -> bool {
    match r {
        Ok(v) => v == total,
        Err(e) => e == LedgerError::Storage(StorageFault::Overflow) && !fits(total),
    }
}

/// An account with a balance.
pub open spec fn with_balance(a: AccountView, balance: i64) -> AccountBalanceView {
    AccountBalanceView {
        id: a.id,
        name: a.name,
        account_type: a.account_type,
        opening_balance: a.opening_balance,
        balance: balance,
        container_id: a.container_id,
        created_at: a.created_at,
    }
}

/// Each account with the balance that `how` gives it.
pub open spec fn with_balances(accounts: Seq<AccountView>, how: spec_fn(AccountView) -> int) -> Seq<
    AccountBalanceView,
> {
    accounts.map_values(|a: AccountView| with_balance(a, how(a) as i64))
}

/// Whether every balance fits.
pub open spec fn all_fit(accounts: Seq<AccountView>, how: spec_fn(AccountView) -> int) -> bool {
    forall|k: int| 0 <= k < accounts.len() ==> fits(how(#[trigger] accounts[k]))
}

/// The accounts of type `asset` or `contra_asset`.
pub open spec fn is_asset() -> spec_fn(AccountBalanceView) -> bool {
    |b: AccountBalanceView| b.account_type == "asset"@ || b.account_type == "contra_asset"@
}

/// The accounts of type `liability`.
pub open spec fn is_liability() -> spec_fn(AccountBalanceView) -> bool {
    |b: AccountBalanceView| b.account_type == "liability"@
}

/// The accounts of any other type.
pub open spec fn is_equity() -> spec_fn(AccountBalanceView) -> bool {
    |b: AccountBalanceView| !is_asset()(b) && !is_liability()(b)
}

/// Every account.
pub open spec fn any_account() -> spec_fn(AccountBalanceView) -> bool {
    |b: AccountBalanceView| true
}

/// The balance of an account with a balance.
pub open spec fn balance_in() -> spec_fn(AccountBalanceView) -> int {
    |b: AccountBalanceView| b.balance as int
}

/// The sum of the balances of `rows`.
pub open spec fn balance_sum(rows: Seq<AccountBalanceView>) -> int {
    sum_where(rows, any_account(), balance_in())
}

impl Ledger {
    /// The flow of `container` over all time: the sum of its entries'
    /// amounts, legs of transfers left out.
    pub open spec fn all_time_balance(self, container: i64) -> int {
        sum_where(self.transactions, plain_in(container), amount_of())
    }

    /// The flow of `container` in `month`: the sum of the amounts of its
    /// entries whose timestamp begins with `month`, legs of transfers left out.
    pub open spec fn month_balance(self, container: i64, month: Seq<char>) -> int {
        sum_where(self.transactions, plain_in_month(container, month), amount_of())
    }

    /// The balance of `account`: its opening balance and the amounts of all
    /// entries that refer to it, legs of transfers included.
    pub open spec fn balance_of(self, account: AccountView) -> int {
        account.opening_balance + sum_where(self.transactions, entry_on(account.id), amount_of())
    }

    /// The balance of `account` at the moment `end`: its opening balance and
    /// the amounts of the entries that refer to it and are not dated after
    /// `end`, legs of transfers included.
    pub open spec fn balance_until(self, account: AccountView, end: Seq<char>) -> int {
        account.opening_balance + sum_where(
            self.transactions,
            entry_on_until(account.id, end),
            amount_of(),
        )
    }

    /// The account with identifier `id`.
    pub open spec fn account_with(self, id: i64) -> AccountView {
        let i = choose|i: int| 0 <= i < self.accounts.len() && (#[trigger] self.accounts[i]).id
            == id;
        self.accounts[i]
    }

    /// The balance of the account with identifier `id`. It fails where there
    /// is no such account, or where the balance does not fit.
    pub open spec fn account_balance(self, id: i64) -> Result<i64, LedgerError> {
        if count_where(self.accounts, account_is(id)) == 0 {
            Err(LedgerError::NotFound)
        } else if !fits(self.balance_of(self.account_with(id))) {
            Err(LedgerError::Storage(StorageFault::Overflow))
        } else {
            Ok(self.balance_of(self.account_with(id)) as i64)
        }
    }

    /// How accounts are given their balance: as of now, or at a moment.
    pub open spec fn balance_measure(self, until: Option<Seq<char>>) -> spec_fn(AccountView) -> int {
        |a: AccountView|
            match until {
                Some(end) => self.balance_until(a, end),
                None => self.balance_of(a),
            }
    }

    /// The accounts of `container` with their balances, by name. It fails
    /// where a balance does not fit.
    pub open spec fn account_balances(self, container: i64) -> Result<
        Seq<AccountBalanceView>,
        LedgerError,
    > {
        let accounts = self.listed_accounts(container);
        if all_fit(accounts, self.balance_measure(None)) {
            Ok(with_balances(accounts, self.balance_measure(None)))
        } else {
            Err(LedgerError::Storage(StorageFault::Overflow))
        }
    }

    /// The balance sheet of `container` at the end of `month`: each account
    /// with its balance at the last second of the month, in three buckets by
    /// type, and the three totals. It fails where `month` names no month, or
    /// where a balance or a total does not fit.
    pub open spec fn balance_sheet(self, container: i64, month: Seq<char>) -> Result<
        BalanceSheetReportView,
        LedgerError,
    > {
        match month_bounds(month) {
            Err(e) => Err(e),
            Ok(bounds) => {
                let accounts = self.listed_accounts(container);
                let how = self.balance_measure(Some(bounds.1));
                let rows = with_balances(accounts, how);
                let assets = keep_where(rows, is_asset());
                let liabilities = keep_where(rows, is_liability());
                let equity = keep_where(rows, is_equity());
                if all_fit(accounts, how) && fits(balance_sum(assets)) && fits(
                    balance_sum(liabilities),
                ) && fits(balance_sum(equity)) {
                    Ok(
                        BalanceSheetReportView {
                            as_of: bounds.1,
                            assets: assets,
                            liabilities: liabilities,
                            equity: equity,
                            total_assets: balance_sum(assets) as i64,
                            total_liabilities: balance_sum(liabilities) as i64,
                            total_equity: balance_sum(equity) as i64,
                        },
                    )
                } else {
                    Err(LedgerError::Storage(StorageFault::Overflow))
                }
            },
        }
    }
}

/// `total` as an amount, or the failure where it does not fit.
pub fn fit(total: i128) -> (r: Result<i64, LedgerError>)
    ensures
        is_total(r, total as int),
{
    if total < -0x8000_0000_0000_0000 || total > 0x7fff_ffff_ffff_ffff {
        Err(LedgerError::Storage(StorageFault::Overflow))
    } else {
        Ok(total as i64)
    }
}

/// The sum of the balances of `rows`.
fn sum_balances(rows: &Vec<AccountBalance>) -> (total: i128)
    ensures
        total == balance_sum(views_of(rows@)),
{
    let ghost all = views_of(rows@);
    let mut total: i128 = 0;
    let mut i: usize = 0;
    while i < rows.len()
        invariant
            i <= rows.len(),
            all == views_of(rows@),
            total == balance_sum(all.take(i as int)),
            -(i * 0x8000_0000_0000_0000) <= total <= i * 0x8000_0000_0000_0000,
        decreases rows.len() - i,
    {
        assert(all.take(i + 1).drop_last() =~= all.take(i as int));
        assert(all.take(i + 1).last() == rows@[i as int]@);
        total = total + rows[i].balance as i128;
        i += 1;
    }
    assert(all.take(rows@.len() as int) =~= all);
    total
}

/// The three buckets of a balance sheet.
struct Buckets {
    assets: Vec<AccountBalance>,
    liabilities: Vec<AccountBalance>,
    equity: Vec<AccountBalance>,
}

/// Sorts accounts with balances into the three buckets, by type.
fn bucketed(rows: Vec<AccountBalance>) -> (b: Buckets)
    ensures
        views_of(b.assets@) == keep_where(views_of(rows@), is_asset()),
        views_of(b.liabilities@) == keep_where(views_of(rows@), is_liability()),
        views_of(b.equity@) == keep_where(views_of(rows@), is_equity()),
{
    let ghost all = views_of(rows@);
    let asset = "asset".to_owned();
    let contra = "contra_asset".to_owned();
    let liability = "liability".to_owned();
    let mut assets: Vec<AccountBalance> = Vec::new();
    let mut liabilities: Vec<AccountBalance> = Vec::new();
    let mut equity: Vec<AccountBalance> = Vec::new();
    let mut rows = rows;
    let count: usize = rows.len();
    let ghost total = count as nat;
    let mut rest: Vec<AccountBalance> = Vec::new();
    // Rows are taken from the back, so turn them round first.
    while rows.len() > 0
        invariant
            rows@.len() + rest@.len() == total,
            total == all.len(),
            forall|k: int| 0 <= k < rows@.len() ==> (#[trigger] rows@[k])@ == all[k],
            forall|k: int|
                0 <= k < rest@.len() ==> (#[trigger] rest@[k])@ == all[total - 1 - k],
        decreases rows.len(),
    {
        let row = rows.pop().unwrap();
        rest.push(row);
    }
    let mut i: usize = 0;
    assert(all.take(0) =~= Seq::<AccountBalanceView>::empty());
    proof {
        reveal_strlit("asset");
        reveal_strlit("contra_asset");
        reveal_strlit("liability");
    }
    while rest.len() > 0
        invariant
            i + rest@.len() == total,
            total == all.len(),
            total <= usize::MAX,
            "asset"@.len() == 5,
            "contra_asset"@.len() == 12,
            "liability"@.len() == 9,
            asset@ == "asset"@,
            contra@ == "contra_asset"@,
            liability@ == "liability"@,
            forall|k: int|
                0 <= k < rest@.len() ==> (#[trigger] rest@[k])@ == all[total - 1 - k],
            views_of(assets@) == keep_where(all.take(i as int), is_asset()),
            views_of(liabilities@) == keep_where(all.take(i as int), is_liability()),
            views_of(equity@) == keep_where(all.take(i as int), is_equity()),
        decreases rest.len(),
    {
        let row = rest.pop().unwrap();
        assert(row@ == all[i as int]);
        assert(all.take(i + 1).drop_last() =~= all.take(i as int));
        assert(all.take(i + 1).last() == row@);
        if row.account_type == asset || row.account_type == contra {
            let ghost before = views_of(assets@);
            let ghost added = row@;
            assets.push(row);
            assert(views_of(assets@) =~= before.push(added));
        } else if row.account_type == liability {
            let ghost before = views_of(liabilities@);
            let ghost added = row@;
            liabilities.push(row);
            assert(views_of(liabilities@) =~= before.push(added));
        } else {
            let ghost before = views_of(equity@);
            let ghost added = row@;
            equity.push(row);
            assert(views_of(equity@) =~= before.push(added));
        }
        i += 1;
    }
    assert(all.take(total as int) =~= all);
    Buckets { assets, liabilities, equity }
}

impl Database {
    /// The flow of `container` over all time: the sum of its entries'
    /// amounts, legs of transfers left out.
    pub fn get_all_time_balance(&self, container_id: i64) -> (r: Result<i64, LedgerError>)
        ensures
            is_total(r, self@.all_time_balance(container_id)),
    {
        fit(total_amount(&self.transactions, &EntrySelector::PlainIn(container_id)))
    }

    /// The flow of `container` in `month`, given as `YYYY-MM`.
    pub fn get_balance_for_month(&self, container_id: i64, month: String) -> (r: Result<
        i64,
        LedgerError,
    >)
        ensures
            is_total(r, self@.month_balance(container_id, month@)),
    {
        let by = EntrySelector::PlainInMonth(container_id, chars_of(month.as_str()));
        fit(total_amount(&self.transactions, &by))
    }

    /// The flow of `container` in the month of the local time.
    pub fn get_monthly_balance(&self, container_id: i64) -> (r: Result<i64, LedgerError>)
        ensures
            exists|now: Timestamp|
                now.is_valid() && is_total(
                    r,
                    #[trigger] self@.month_balance(
                        container_id,
                        month_text(now.year as int, now.month as int),
                    ),
                ),
    {
        let now = Timestamp::now();
        let r = self.get_balance_for_month(container_id, now.month());
        assert(is_total(
            r,
            self@.month_balance(container_id, month_text(now.year as int, now.month as int)),
        ));
        r
    }

    /// The balance of one account: its opening balance and the amounts of all
    /// entries that refer to it, legs of transfers included.
    pub fn account_balance(&self, account_id: i64) -> (r: Result<i64, LedgerError>)
        requires
            self@.wf(),
        ensures
            r == self@.account_balance(account_id),
    {
        let place = match first_place(&self.accounts, &AccountSelector::Is(account_id)) {
            Some(i) => i,
            None => {
                return Err(LedgerError::NotFound);
            },
        };
        proof {
            let found = choose|i: int|
                0 <= i < self@.accounts.len() && (#[trigger] self@.accounts[i]).id == account_id;
            assert(self@.accounts[place as int] == self.accounts@[place as int]@);
            ascending_distinct(self@.accounts, crate::ledger::account_id(), found, place as int);
        }
        let entries: usize = self.transactions.len();
        let moved = total_amount(&self.transactions, &EntrySelector::On(account_id));
        assert(-(entries * 0x8000_0000_0000_0000) <= moved <= entries * 0x8000_0000_0000_0000);
        fit(moved + self.accounts[place].opening_balance as i128)
    }

    /// Each of `accounts` with its balance, as of now or at the moment
    /// `until`.
    fn balances(&self, accounts: &Vec<Account>, until: Option<&Vec<char>>) -> (r: Result<
        Vec<AccountBalance>,
        LedgerError,
    >)
        ensures
            match r {
                Ok(rows) => all_fit(
                    views_of(accounts@),
                    self@.balance_measure(
                        match until {
                            Some(end) => Some(end@),
                            None => None,
                        },
                    ),
                ) && views_of(rows@) == with_balances(
                    views_of(accounts@),
                    self@.balance_measure(
                        match until {
                            Some(end) => Some(end@),
                            None => None,
                        },
                    ),
                ),
                Err(e) => e == LedgerError::Storage(StorageFault::Overflow) && !all_fit(
                    views_of(accounts@),
                    self@.balance_measure(
                        match until {
                            Some(end) => Some(end@),
                            None => None,
                        },
                    ),
                ),
            },
    {
        let ghost all = views_of(accounts@);
        let ghost how = self@.balance_measure(
            match until {
                Some(end) => Some(end@),
                None => None,
            },
        );
        let mut rows: Vec<AccountBalance> = Vec::new();
        let mut i: usize = 0;
        while i < accounts.len()
            invariant
                i <= accounts.len(),
                all == views_of(accounts@),
                how == self@.balance_measure(
                    match until {
                        Some(end) => Some(end@),
                        None => None,
                    },
                ),
                rows@.len() == i,
                forall|k: int| 0 <= k < i ==> fits(how(#[trigger] all[k])),
                forall|k: int|
                    0 <= k < i ==> (#[trigger] rows@[k])@ == with_balance(all[k], how(all[k]) as i64),
            decreases accounts.len() - i,
        {
            let account = &accounts[i];
            let entries: usize = self.transactions.len();
            let moved: i128 = match until {
                Some(end) => {
                    let mut copy: Vec<char> = Vec::new();
                    crate::text::push_all(&mut copy, end);
                    assert(copy@ =~= end@);
                    total_amount(&self.transactions, &EntrySelector::OnUntil(account.id, copy))
                },
                None => total_amount(&self.transactions, &EntrySelector::On(account.id)),
            };
            assert(all[i as int] == account@);
            assert(-(entries * 0x8000_0000_0000_0000) <= moved <= entries * 0x8000_0000_0000_0000);
            assert(moved + account.opening_balance == how(all[i as int]));
            let balance = match fit(moved + account.opening_balance as i128) {
                Ok(b) => b,
                Err(e) => {
                    return Err(e);
                },
            };
            rows.push(
                AccountBalance {
                    id: account.id,
                    name: account.name.clone(),
                    account_type: account.account_type.clone(),
                    opening_balance: account.opening_balance,
                    balance,
                    container_id: account.container_id,
                    created_at: account.created_at.clone(),
                },
            );
            i += 1;
        }
        assert(views_of(rows@) =~= with_balances(all, how));
        Ok(rows)
    }

    /// The accounts of `container` with their balances, by name.
    pub fn get_account_balances(&self, container_id: i64) -> (r: Result<
        Vec<AccountBalance>,
        LedgerError,
    >)
        ensures
            match r {
                Ok(rows) => self@.account_balances(container_id) == Ok::<
                    Seq<AccountBalanceView>,
                    LedgerError,
                >(views_of(rows@)),
                Err(e) => self@.account_balances(container_id) == Err::<
                    Seq<AccountBalanceView>,
                    LedgerError,
                >(e),
            },
    {
        let accounts = self.get_accounts(container_id);
        self.balances(&accounts, None)
    }

    /// The balance sheet of `container` at the end of `month`, given as
    /// `YYYY-MM`.
    pub fn get_balance_sheet_for_month(&self, container_id: i64, month: String) -> (r: Result<
        BalanceSheetReport,
        LedgerError,
    >)
        ensures
            match r {
                Ok(report) => self@.balance_sheet(container_id, month@) == Ok::<
                    BalanceSheetReportView,
                    LedgerError,
                >(report@),
                Err(e) => self@.balance_sheet(container_id, month@) == Err::<
                    BalanceSheetReportView,
                    LedgerError,
                >(e),
            },
    {
        let bounds = match month_range(month.as_str()) {
            Ok(b) => b,
            Err(e) => {
                return Err(e);
            },
        };
        let end = chars_of(bounds.1.as_str());
        let accounts = self.get_accounts(container_id);
        let rows = match self.balances(&accounts, Some(&end)) {
            Ok(rows) => rows,
            Err(e) => {
                return Err(e);
            },
        };
        let buckets = bucketed(rows);
        let total_assets = match fit(sum_balances(&buckets.assets)) {
            Ok(t) => t,
            Err(e) => {
                return Err(e);
            },
        };
        let total_liabilities = match fit(sum_balances(&buckets.liabilities)) {
            Ok(t) => t,
            Err(e) => {
                return Err(e);
            },
        };
        let total_equity = match fit(sum_balances(&buckets.equity)) {
            Ok(t) => t,
            Err(e) => {
                return Err(e);
            },
        };
        Ok(
            BalanceSheetReport {
                as_of: bounds.1,
                assets: buckets.assets,
                liabilities: buckets.liabilities,
                equity: buckets.equity,
                total_assets,
                total_liabilities,
                total_equity,
            },
        )
    }
}

} // verus!
