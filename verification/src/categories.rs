//! Categories: creating, deleting and listing them, and the type that a
//! label stands for.

use crate::error::{LedgerError, StorageFault};
use crate::ledger::{
    accounts_carry_over, category_named, category_not_named, containers_carry_over,
    entries_carry_over, outcome, Ledger,
};
use crate::model::{Category, CategoryView};
use crate::order::{row_order, sorted_rows, stable_sorted, views_of};
use crate::select::{first_place, kept_rows};
use crate::selectors::CategorySelector;
use crate::seqs::{count_keep_le, count_where, keep_where};
use crate::store::Database;
use vstd::prelude::*;

verus! {

/// The default categories named `name`.
pub open spec fn default_category_named(name: Seq<char>) -> spec_fn(CategoryView) -> bool {
    |c: CategoryView| c.name == name && c.is_default
}

impl Ledger {
    /// The ledger with a new category. It fails where the name is in use.
    pub open spec fn add_category(self, name: Seq<char>, category_type: Seq<char>) -> Result<
        Ledger,
        LedgerError,
    > {
        if self.name_count(name) >= 1 {
            Err(LedgerError::Storage(StorageFault::Conflict))
        } else {
            Ok(
                Ledger {
                    categories: self.categories.push(
                        CategoryView {
                            name: name,
                            category_type: category_type,
                            is_default: false,
                        },
                    ),
                    ..self
                },
            )
        }
    }

    /// The ledger without the category named `name`. It fails where that
    /// category is a default one; where there is none, nothing changes.
    pub open spec fn delete_category(self, name: Seq<char>) -> Result<Ledger, LedgerError> {
        if count_where(self.categories, default_category_named(name)) >= 1 {
            Err(LedgerError::ProtectedEntity)
        } else {
            Ok(Ledger { categories: keep_where(self.categories, category_not_named(name)), ..self })
        }
    }

    /// The categories as they are listed: the default ones first, then by
    /// name.
    pub open spec fn listed_categories(self) -> Seq<CategoryView> {
        stable_sorted(self.categories, row_order::<Category>())
    }
}

/// Adding a category keeps the invariant.
pub proof fn add_category_keeps_wf(a: Ledger, name: Seq<char>, category_type: Seq<char>)
    requires
        a.wf(),
        a.add_category(name, category_type) is Ok,
    ensures
        a.add_category(name, category_type)->Ok_0.wf(),
{
    let b = a.add_category(name, category_type)->Ok_0;
    containers_carry_over(a, b);
    accounts_carry_over(a, b);
    entries_carry_over(a, b);
    assert(b.categories.drop_last() =~= a.categories);
    assert forall|other: Seq<char>| #[trigger] b.name_count(other) <= 1 by {
        assert(a.name_count(other) <= 1);
    }
}

/// Deleting a category keeps the invariant.
pub proof fn delete_category_keeps_wf(a: Ledger, name: Seq<char>)
    requires
        a.wf(),
        a.delete_category(name) is Ok,
    ensures
        a.delete_category(name)->Ok_0.wf(),
{
    let b = a.delete_category(name)->Ok_0;
    containers_carry_over(a, b);
    accounts_carry_over(a, b);
    entries_carry_over(a, b);
    assert forall|other: Seq<char>| #[trigger] b.name_count(other) <= 1 by {
        assert(a.name_count(other) <= 1);
        count_keep_le(a.categories, category_not_named(name), category_named(other));
    }
}

impl Database {
    /// Creates a category.
    pub fn add_category(&mut self, name: String, category_type: String) -> (r: Result<
        (),
        LedgerError,
    >)
        requires
            old(self)@.wf(),
        ensures
            final(self)@.wf(),
            outcome(old(self)@, final(self)@, old(self)@.add_category(name@, category_type@), r),
    {
        if first_place(&self.categories, &CategorySelector::Named(name.clone())).is_some() {
            return Err(LedgerError::Storage(StorageFault::Conflict));
        }
        proof {
            add_category_keeps_wf(self@, name@, category_type@);
        }
        let row = Category { name, category_type, is_default: false };
        let ghost before = views_of(self.categories@);
        let ghost added = row@;
        self.categories.push(row);
        assert(views_of(self.categories@) =~= before.push(added));
        Ok(())
    }

    /// Deletes the category named `name`. A default category cannot be
    /// deleted.
    pub fn delete_category(&mut self, name: String) -> (r: Result<(), LedgerError>)
        requires
            old(self)@.wf(),
        ensures
            final(self)@.wf(),
            outcome(old(self)@, final(self)@, old(self)@.delete_category(name@), r),
    {
        if first_place(&self.categories, &CategorySelector::DefaultNamed(name.clone())).is_some() {
            return Err(LedgerError::ProtectedEntity);
        }
        proof {
            delete_category_keeps_wf(self@, name@);
        }
        self.categories = kept_rows(&self.categories, &CategorySelector::NotNamed(name));
        Ok(())
    }

    /// The categories: the default ones first, then by name.
    pub fn get_categories(&self) -> (r: Vec<Category>)
        ensures
            views_of(r@) == self@.listed_categories(),
    {
        sorted_rows(&self.categories)
    }
}

} // verus!
