//! The predicates by which the store selects its rows.

use crate::accounts::other_account_named_in;
use crate::categories::default_category_named;
use crate::containers::{default_container_is, other_container_named};
use crate::ledger::{
    account_in, account_is, account_is_not, account_named_in, account_outside, category_named,
    category_not_named, container_default, container_is, container_is_not, container_named,
    entry_in, entry_in_month, entry_in_on, entry_is, entry_is_not, entry_on, entry_on_until,
    entry_outside, leg_of, leg_with_id, not_leg_of, plain_in, plain_in_month,
};
use crate::model::{
    Account, AccountView, Category, CategoryView, Container, ContainerView, Transaction,
    TransactionView,
};
use crate::select::Selector;
use crate::text::{chars_of, starts_with, text_before};
use vstd::prelude::*;

verus! {

/// Predicates on containers.
pub enum ContainerSelector {
    /// The container with this identifier.
    Is(i64),
    /// Every container but the one with this identifier.
    IsNot(i64),
    /// The containers with this name.
    Named(String),
    /// The containers with this name, but for the one with this identifier.
    OtherNamed(i64, String),
    /// The container with this identifier, if it is a default one.
    DefaultIs(i64),
    /// The default containers.
    AnyDefault,
}

impl Selector<Container> for ContainerSelector {
    open spec fn selects(&self) -> spec_fn(ContainerView) -> bool {
        match self {
            ContainerSelector::Is(id) => container_is(*id),
            ContainerSelector::IsNot(id) => container_is_not(*id),
            ContainerSelector::Named(name) => container_named(name@),
            ContainerSelector::OtherNamed(id, name) => other_container_named(*id, name@),
            ContainerSelector::DefaultIs(id) => default_container_is(*id),
            ContainerSelector::AnyDefault => container_default(),
        }
    }

    fn accepts(&self, row: &Container) -> (r: bool) {
        match self {
            ContainerSelector::Is(id) => row.id == *id,
            ContainerSelector::IsNot(id) => row.id != *id,
            ContainerSelector::Named(name) => row.name == *name,
            ContainerSelector::OtherNamed(id, name) => row.id != *id && row.name == *name,
            ContainerSelector::DefaultIs(id) => row.id == *id && row.is_default,
            ContainerSelector::AnyDefault => row.is_default,
        }
    }
}

/// Predicates on accounts.
pub enum AccountSelector {
    /// The account with this identifier.
    Is(i64),
    /// Every account but the one with this identifier.
    IsNot(i64),
    /// The accounts of this container.
    In(i64),
    /// The accounts outside this container.
    Outside(i64),
    /// The accounts with this name in this container.
    NamedIn(String, i64),
    /// The accounts with this name in this container, but for the one
    /// with this identifier.
    OtherNamedIn(i64, String, i64),
}

impl Selector<Account> for AccountSelector {
    open spec fn selects(&self) -> spec_fn(AccountView) -> bool {
        match self {
            AccountSelector::Is(id) => account_is(*id),
            AccountSelector::IsNot(id) => account_is_not(*id),
            AccountSelector::In(container) => account_in(*container),
            AccountSelector::Outside(container) => account_outside(*container),
            AccountSelector::NamedIn(name, container) => account_named_in(name@, *container),
            AccountSelector::OtherNamedIn(id, name, container) => other_account_named_in(
                *id,
                name@,
                *container,
            ),
        }
    }

    fn accepts(&self, row: &Account) -> (r: bool) {
        match self {
            AccountSelector::Is(id) => row.id == *id,
            AccountSelector::IsNot(id) => row.id != *id,
            AccountSelector::In(container) => row.container_id == *container,
            AccountSelector::Outside(container) => row.container_id != *container,
            AccountSelector::NamedIn(name, container) => row.name == *name && row.container_id
                == *container,
            AccountSelector::OtherNamedIn(id, name, container) => row.id != *id && row.name
                == *name && row.container_id == *container,
        }
    }
}

/// Predicates on categories.
pub enum CategorySelector {
    /// The categories with this name.
    Named(String),
    /// The categories with another name.
    NotNamed(String),
    /// The default categories with this name.
    DefaultNamed(String),
}

impl Selector<Category> for CategorySelector {
    open spec fn selects(&self) -> spec_fn(CategoryView) -> bool {
        match self {
            CategorySelector::Named(name) => category_named(name@),
            CategorySelector::NotNamed(name) => category_not_named(name@),
            CategorySelector::DefaultNamed(name) => default_category_named(name@),
        }
    }

    fn accepts(&self, row: &Category) -> (r: bool) {
        match self {
            CategorySelector::Named(name) => row.name == *name,
            CategorySelector::NotNamed(name) => row.name != *name,
            CategorySelector::DefaultNamed(name) => row.name == *name && row.is_default,
        }
    }
}

/// Predicates on entries.
pub enum EntrySelector {
    /// The entry with this identifier.
    Is(i64),
    /// Every entry but the one with this identifier.
    IsNot(i64),
    /// The entries of this container.
    In(i64),
    /// The entries outside this container.
    Outside(i64),
    /// The entries that carry this transfer identifier.
    LegOf(i64),
    /// The entries that do not carry this transfer identifier.
    NotLegOf(i64),
    /// The entries that refer to this account.
    On(i64),
    /// The entries of this container that refer to this account.
    InOn(i64, i64),
    /// The entries of this container whose timestamp begins with this month.
    InMonth(i64, Vec<char>),
    /// The entry with this identifier, if it is a leg of a transfer.
    LegWithId(i64),
    /// The entries of this container that are no legs of a transfer.
    PlainIn(i64),
    /// The entries of this container that are no legs of a transfer and
    /// whose timestamp begins with this month.
    PlainInMonth(i64, Vec<char>),
    /// The entries that refer to this account and whose timestamp is this
    /// one or comes before it.
    OnUntil(i64, Vec<char>),
}

impl Selector<Transaction> for EntrySelector {
    open spec fn selects(&self) -> spec_fn(TransactionView) -> bool {
        match self {
            EntrySelector::Is(id) => entry_is(*id),
            EntrySelector::IsNot(id) => entry_is_not(*id),
            EntrySelector::In(container) => entry_in(*container),
            EntrySelector::Outside(container) => entry_outside(*container),
            EntrySelector::LegOf(transfer) => leg_of(*transfer),
            EntrySelector::NotLegOf(transfer) => not_leg_of(*transfer),
            EntrySelector::On(account) => entry_on(*account),
            EntrySelector::InOn(container, account) => entry_in_on(*container, *account),
            EntrySelector::InMonth(container, month) => entry_in_month(*container, month@),
            EntrySelector::LegWithId(id) => leg_with_id(*id),
            EntrySelector::PlainIn(container) => plain_in(*container),
            EntrySelector::PlainInMonth(container, month) => plain_in_month(*container, month@),
            EntrySelector::OnUntil(account, end) => entry_on_until(*account, end@),
        }
    }

    fn accepts(&self, row: &Transaction) -> (r: bool) {
        match self {
            EntrySelector::Is(id) => row.id == *id,
            EntrySelector::IsNot(id) => row.id != *id,
            EntrySelector::In(container) => row.container_id == *container,
            EntrySelector::Outside(container) => row.container_id != *container,
            EntrySelector::LegOf(transfer) => row.transfer_id == *transfer,
            EntrySelector::NotLegOf(transfer) => row.transfer_id != *transfer,
            EntrySelector::On(account) => row.account_id == *account,
            EntrySelector::InOn(container, account) => row.container_id == *container
                && row.account_id == *account,
            EntrySelector::InMonth(container, month) => row.container_id == *container
                && starts_with(&chars_of(row.date.as_str()), month),
            EntrySelector::LegWithId(id) => row.id == *id && row.transfer_id != 0,
            EntrySelector::PlainIn(container) => row.container_id == *container
                && row.transfer_id == 0,
            EntrySelector::PlainInMonth(container, month) => row.container_id == *container
                && row.transfer_id == 0 && starts_with(&chars_of(row.date.as_str()), month),
            EntrySelector::OnUntil(account, end) => row.account_id == *account && !text_before(
                end,
                &chars_of(row.date.as_str()),
            ),
        }
    }
}

} // verus!
