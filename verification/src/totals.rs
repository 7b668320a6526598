//! Totals by category: the expense of a month by label, the profit-and-loss
//! report, and the months that a container has entries in.

use crate::balances::{fit, fits};
use crate::calendar::{month_bounds, month_range, month_text, Timestamp};
use crate::error::{LedgerError, StorageFault};
use crate::ledger::Ledger;
use crate::model::{
    Category, CategoryView, ProfitLossLine, ProfitLossLineView, ProfitLossReport,
    ProfitLossReportView, Transaction, TransactionView,
};
use crate::order::{
    row_order, sorted_rows, sorted_sums, stable_sorted, views_of, Row, SortKey, SortKeyView,
    Sortable,
};
use crate::select::{kept_rows, magnitude_of, total_magnitude, Selector};
use crate::seqs::{
    distinct_has_all, distinct_has_no_repeats, distinct_of, every, keep_where, sum_of_none,
    sum_where,
};
use crate::store::Database;
use crate::text::{chars_of, slice_of, starts_with, text_before, text_lt, text_of};
use vstd::prelude::*;

verus! {

/// A stretch of time that timestamps are held against.
pub enum Span {
    /// The timestamps that begin with this month text.
    Month(Seq<char>),
    /// The timestamps from the first to the second of these, both included.
    Between(Seq<char>, Seq<char>),
}

impl Span {
    /// Whether the timestamp `date` lies in this stretch.
    pub open spec fn covers(self, date: Seq<char>) -> bool {
        match self {
            Span::Month(month) => month.is_prefix_of(date),
            Span::Between(start, end) => !text_lt(date, start) && !text_lt(end, date),
        }
    }
}

/// A stretch of time that timestamps are held against.
pub enum Period {
    /// The timestamps that begin with this month text.
    Month(Vec<char>),
    /// The timestamps from the first to the second of these, both included.
    Between(Vec<char>, Vec<char>),
}

impl View for Period {
    type V = Span;

    open spec fn view(&self) -> Span {
        match self {
            Period::Month(month) => Span::Month(month@),
            Period::Between(start, end) => Span::Between(start@, end@),
        }
    }
}

impl Period {
    /// Whether the timestamp `date` lies in this stretch.
    pub fn covers(&self, date: &Vec<char>) -> (r: bool)
        ensures
            r == self@.covers(date@),
    {
        match self {
            Period::Month(month) => starts_with(date, month),
            Period::Between(start, end) => !text_before(date, start) && !text_before(end, date),
        }
    }
}

/// The type that the label `label` stands for: that of the category with
/// this name, and `expense` where there is none.
pub open spec fn type_of_label(categories: Seq<CategoryView>, label: Seq<char>) -> Seq<char>
    decreases categories.len(),
{
    if categories.len() == 0 {
        "expense"@
    } else if categories.last().name == label {
        categories.last().category_type
    } else {
        type_of_label(categories.drop_last(), label)
    }
}

/// The entries of `container` in `span` that are no legs of a transfer and
/// whose label stands for the type `kind`.
pub open spec fn typed_flow(
    categories: Seq<CategoryView>,
    container: i64,
    kind: Seq<char>,
    span: Span,
) -> spec_fn(TransactionView) -> bool {
    |t: TransactionView|
        t.container_id == container && t.transfer_id == 0 && span.covers(t.date)
            && type_of_label(categories, t.category) == kind
}

/// The label of an entry.
pub open spec fn label_of() -> spec_fn(TransactionView) -> Seq<char> {
    |t: TransactionView| t.category
}

/// The entries with the label `label`.
pub open spec fn labelled(label: Seq<char>) -> spec_fn(TransactionView) -> bool {
    |t: TransactionView| t.category == label
}

/// The labels of `rows`, each once, in the order of their first entry.
pub open spec fn labels_of(rows: Seq<TransactionView>) -> Seq<Seq<char>> {
    distinct_of(rows.map_values(label_of()))
}

/// The sum of the magnitudes of the entries of `rows` with the label `label`.
pub open spec fn label_total(rows: Seq<TransactionView>, label: Seq<char>) -> int {
    sum_where(rows, labelled(label), magnitude_of())
}

/// The report line of a label.
pub open spec fn line_for(rows: Seq<TransactionView>) -> spec_fn(Seq<char>) -> ProfitLossLineView {
    |label: Seq<char>| ProfitLossLineView { category: label, total: label_total(rows, label) as i64 }
}

/// One line for each label of `rows`, in the order of their first entry.
pub open spec fn lines_of(rows: Seq<TransactionView>) -> Seq<ProfitLossLineView> {
    labels_of(rows).map_values(line_for(rows))
}

/// Whether the total of every label fits.
pub open spec fn lines_fit(rows: Seq<TransactionView>) -> bool {
    forall|k: int|
        0 <= k < labels_of(rows).len() ==> fits(label_total(rows, #[trigger] labels_of(rows)[k]))
}

/// The lines of `rows`, the largest total first; lines with equal totals in
/// the order of their first entry.
pub open spec fn listed_lines(rows: Seq<TransactionView>) -> Seq<ProfitLossLineView> {
    stable_sorted(lines_of(rows), row_order::<ProfitLossLine>())
}

/// A line as a pair of label and total.
pub open spec fn as_pair() -> spec_fn(ProfitLossLineView) -> (Seq<char>, i64) {
    |l: ProfitLossLineView| (l.category, l.total)
}

/// The views of a sequence of pairs of label and total.
pub open spec fn pair_views(rows: Seq<(String, i64)>) -> Seq<(Seq<char>, i64)> {
    rows.map_values(|p: (String, i64)| (p.0@, p.1))
}

/// The entries of `container` whose timestamp is long enough to hold a month.
pub open spec fn dated_in(container: i64) -> spec_fn(TransactionView) -> bool {
    |t: TransactionView| t.container_id == container && t.date.len() >= 7
}

/// The month of an entry: the first seven characters of its timestamp.
pub open spec fn month_of() -> spec_fn(TransactionView) -> Seq<char> {
    |t: TransactionView| t.date.take(7)
}

impl Sortable for String {
    /// Month texts are listed with the latest first.
    open spec fn key_of(v: Seq<char>) -> SortKeyView {
        SortKeyView { rank: 0, text: v }
    }

    open spec fn descending() -> bool {
        true
    }

    fn sort_key(&self) -> (k: SortKey) {
        SortKey { rank: 0, text: chars_of(self.as_str()) }
    }

    fn larger_first() -> (d: bool) {
        true
    }
}

impl Row for String {
    fn copy_row(&self) -> (r: String) {
        self.clone()
    }
}

impl Ledger {
    /// The entries that make up the flow of type `kind` in `span`.
    pub open spec fn flow_rows(self, container: i64, kind: Seq<char>, span: Span) -> Seq<
        TransactionView,
    > {
        keep_where(self.transactions, typed_flow(self.categories, container, kind, span))
    }

    /// The flow of type `kind` in `span`: the sum of the magnitudes of its
    /// entries.
    pub open spec fn flow_total(self, container: i64, kind: Seq<char>, span: Span) -> int {
        sum_where(
            self.transactions,
            typed_flow(self.categories, container, kind, span),
            magnitude_of(),
        )
    }

    /// The expense of `container` in `month` by label, the largest total
    /// first. It fails where a total does not fit.
    pub open spec fn category_totals(self, container: i64, month: Seq<char>) -> Result<
        Seq<(Seq<char>, i64)>,
        LedgerError,
    > {
        let rows = self.flow_rows(container, "expense"@, Span::Month(month));
        if lines_fit(rows) {
            Ok(listed_lines(rows).map_values(as_pair()))
        } else {
            Err(LedgerError::Storage(StorageFault::Overflow))
        }
    }

    /// The profit-and-loss report of `container` for `month`: income and
    /// expense by label between the first and the last second of the month,
    /// the two totals, and their difference. It fails where `month` names no
    /// month, or where a total does not fit.
    pub open spec fn profit_and_loss(self, container: i64, month: Seq<char>) -> Result<
        ProfitLossReportView,
        LedgerError,
    > {
        match month_bounds(month) {
            Err(e) => Err(e),
            Ok(bounds) => {
                let span = Span::Between(bounds.0, bounds.1);
                let income = self.flow_rows(container, "income"@, span);
                let expense = self.flow_rows(container, "expense"@, span);
                let total_income = self.flow_total(container, "income"@, span);
                let total_expense = self.flow_total(container, "expense"@, span);
                if lines_fit(income) && lines_fit(expense) && fits(total_income) && fits(
                    total_expense,
                ) {
                    Ok(
                        ProfitLossReportView {
                            start_date: bounds.0,
                            end_date: bounds.1,
                            income: listed_lines(income),
                            expense: listed_lines(expense),
                            total_income: total_income as i64,
                            total_expense: total_expense as i64,
                            net_income: (total_income - total_expense) as i64,
                        },
                    )
                } else {
                    Err(LedgerError::Storage(StorageFault::Overflow))
                }
            },
        }
    }

    /// The months in which `container` has entries, the latest first.
    pub open spec fn listed_months(self, container: i64) -> Seq<Seq<char>> {
        stable_sorted(
            distinct_of(keep_where(self.transactions, dated_in(container)).map_values(month_of())),
            row_order::<String>(),
        )
    }
}

/// A label that is not among the labels of `rows` has no entries in `rows`.
pub proof fn unlisted_label_has_nothing(rows: Seq<TransactionView>, label: Seq<char>)
    requires
        !labels_of(rows).contains(label),
    ensures
        label_total(rows, label) == 0,
{
    let items = rows.map_values(label_of());
    assert forall|i: int| 0 <= i < rows.len() implies !labelled(label)(#[trigger] rows[i]) by {
        if rows[i].category == label {
            distinct_has_all(items, i);
        }
    }
    sum_of_none(rows, labelled(label), magnitude_of());
}

/// The total of a report line.
pub open spec fn line_total() -> spec_fn(ProfitLossLineView) -> int {
    |l: ProfitLossLineView| l.total as int
}

/// The sum of the totals of `lines`.
pub open spec fn lines_sum(lines: Seq<ProfitLossLineView>) -> int {
    sum_where(lines, every(), line_total())
}

/// The sum of the magnitudes of `rows`.
pub open spec fn magnitude_sum(rows: Seq<TransactionView>) -> int {
    sum_where(rows, every(), magnitude_of())
}

/// The sum of the totals that `rows` give to each of `labels`.
pub open spec fn label_sums(rows: Seq<TransactionView>, labels: Seq<Seq<char>>) -> int
    decreases labels.len(),
{
    if labels.len() == 0 {
        0
    } else {
        label_sums(rows, labels.drop_last()) + label_total(rows, labels.last())
    }
}

/// How often `label` stands among `labels`.
pub open spec fn times_listed(labels: Seq<Seq<char>>, label: Seq<char>) -> int
    decreases labels.len(),
{
    if labels.len() == 0 {
        0
    } else {
        times_listed(labels.drop_last(), label) + if labels.last() == label {
            1int
        } else {
            0int
        }
    }
}

/// A label stands once among labels without repeats that hold it, and not
/// at all among labels that do not hold it.
proof fn listed_once(labels: Seq<Seq<char>>, label: Seq<char>)
    requires
        forall|a: int, b: int|
            #![trigger labels[a], labels[b]]
            0 <= a < b < labels.len() ==> labels[a] != labels[b],
    ensures
        times_listed(labels, label) == if labels.contains(label) {
            1int
        } else {
            0int
        },
    decreases labels.len(),
{
    if labels.len() > 0 {
        let rest = labels.drop_last();
        assert forall|a: int, b: int|
            #![trigger rest[a], rest[b]]
            0 <= a < b < rest.len() implies rest[a] != rest[b] by {
            assert(rest[a] == labels[a] && rest[b] == labels[b]);
        }
        listed_once(rest, label);
        if rest.contains(label) {
            let w = choose|w: int| 0 <= w < rest.len() && rest[w] == label;
            assert(labels[w] == label);
            assert(labels[w] != labels[labels.len() - 1]);
        } else if labels.last() == label {
            assert(labels[labels.len() - 1] == label);
        } else if labels.contains(label) {
            let w = choose|w: int| 0 <= w < labels.len() && labels[w] == label;
            assert(rest[w] == label);
        }
    }
}

/// One more entry raises the sum of the totals by its magnitude for every
/// time that its label is listed.
proof fn label_sums_grow(rows: Seq<TransactionView>, x: TransactionView, labels: Seq<Seq<char>>)
    ensures
        label_sums(rows.push(x), labels) == label_sums(rows, labels) + magnitude_of()(x)
            * times_listed(labels, x.category),
    decreases labels.len(),
{
    let m = magnitude_of()(x);
    if labels.len() > 0 {
        let rest = labels.drop_last();
        label_sums_grow(rows, x, rest);
        assert(rows.push(x).drop_last() =~= rows);
        assert(label_total(rows.push(x), labels.last()) == label_total(rows, labels.last())
            + if labels.last() == x.category {
            m
        } else {
            0
        });
        assert(m * (times_listed(rest, x.category) + 1) == m * times_listed(rest, x.category) + m)
            by (nonlinear_arith);
    } else {
        assert(m * 0 == 0);
    }
}

/// The totals of the labels of `rows` add up to the sum of the magnitudes of
/// `rows`: every entry counts under exactly one label.
pub proof fn labels_cover_rows(rows: Seq<TransactionView>)
    ensures
        label_sums(rows, labels_of(rows)) == magnitude_sum(rows),
    decreases rows.len(),
{
    if rows.len() > 0 {
        let pre = rows.drop_last();
        let x = rows.last();
        let m = magnitude_of()(x);
        let known = labels_of(pre);
        labels_cover_rows(pre);
        assert(pre.push(x) =~= rows);
        assert(rows.map_values(label_of()).drop_last() =~= pre.map_values(label_of()));
        assert(rows.map_values(label_of()).last() == x.category);
        distinct_has_no_repeats(pre.map_values(label_of()));
        listed_once(known, x.category);
        label_sums_grow(pre, x, known);
        if known.contains(x.category) {
            assert(m * 1 == m);
        } else {
            assert(m * 0 == 0);
            unlisted_label_has_nothing(pre, x.category);
            assert(known.push(x.category).drop_last() =~= known);
            assert(label_total(rows, x.category) == label_total(pre, x.category) + m);
        }
    }
}

/// Where the totals fit, the lines of some labels add up to the totals of
/// those labels.
proof fn lines_add_up(rows: Seq<TransactionView>, labels: Seq<Seq<char>>)
    requires
        forall|k: int| 0 <= k < labels.len() ==> fits(label_total(rows, #[trigger] labels[k])),
    ensures
        lines_sum(labels.map_values(line_for(rows))) == label_sums(rows, labels),
    decreases labels.len(),
{
    if labels.len() > 0 {
        let rest = labels.drop_last();
        assert forall|k: int| 0 <= k < rest.len() implies fits(
            label_total(rows, #[trigger] rest[k]),
        ) by {
            assert(rest[k] == labels[k]);
        }
        lines_add_up(rows, rest);
        assert(labels.map_values(line_for(rows)).drop_last() =~= rest.map_values(line_for(rows)));
        assert(fits(label_total(rows, labels[labels.len() - 1])));
    }
}

/// The lines of a report add up to the sum of the magnitudes of the entries
/// that they were made of.
pub proof fn lines_cover_rows(rows: Seq<TransactionView>)
    requires
        lines_fit(rows),
    ensures
        lines_sum(listed_lines(rows)) == magnitude_sum(rows),
{
    sorted_sums(lines_of(rows), row_order::<ProfitLossLine>(), every(), line_total());
    lines_add_up(rows, labels_of(rows));
    labels_cover_rows(rows);
}

/// The type that `label` stands for.
pub fn resolve_type(categories: &Vec<Category>, label: &String) -> (kind: String)
    ensures
        kind@ == type_of_label(views_of(categories@), label@),
{
    let ghost all = views_of(categories@);
    let mut found: Option<usize> = None;
    let mut i: usize = 0;
    while i < categories.len()
        invariant
            i <= categories.len(),
            all == views_of(categories@),
            match found {
                Some(k) => k < i && type_of_label(all.take(i as int), label@)
                    == all[k as int].category_type,
                None => type_of_label(all.take(i as int), label@) == "expense"@,
            },
        decreases categories.len() - i,
    {
        assert(all.take(i + 1).drop_last() =~= all.take(i as int));
        assert(all.take(i + 1).last() == categories@[i as int]@);
        if categories[i].name == *label {
            found = Some(i);
        }
        i += 1;
    }
    assert(all.take(categories@.len() as int) =~= all);
    match found {
        Some(k) => categories[k].category_type.clone(),
        None => "expense".to_owned(),
    }
}

/// The entries of one container in one stretch of time that are no legs of a
/// transfer and whose label stands for one type.
pub struct FlowSelector<'a> {
    pub categories: &'a Vec<Category>,
    pub container: i64,
    pub kind: String,
    pub period: Period,
}

impl<'a> Selector<Transaction> for FlowSelector<'a> {
    open spec fn selects(&self) -> spec_fn(TransactionView) -> bool {
        typed_flow(views_of(self.categories@), self.container, self.kind@, self.period@)
    }

    fn accepts(&self, row: &Transaction) -> (r: bool) {
        row.container_id == self.container && row.transfer_id == 0 && self.period.covers(
            &chars_of(row.date.as_str()),
        ) && resolve_type(self.categories, &row.category) == self.kind
    }
}

/// The magnitude of an amount.
fn magnitude(amount: i64) -> (m: i128)
    ensures
        m == if amount < 0 {
            -(amount as int)
        } else {
            amount as int
        },
        0 <= m <= 0x8000_0000_0000_0000,
{
    if amount < 0 {
        -(amount as i128)
    } else {
        amount as i128
    }
}

/// The place of `label` among `labels`.
fn place_of(labels: &Vec<String>, label: &String) -> (r: Option<usize>)
    ensures
        match r {
            Some(j) => j < labels@.len() && labels@[j as int]@ == label@,
            None => !views_of(labels@).contains(label@),
        },
{
    let mut j: usize = 0;
    while j < labels.len()
        invariant
            j <= labels.len(),
            forall|k: int| 0 <= k < j ==> (#[trigger] labels@[k])@ != label@,
        decreases labels.len() - j,
    {
        if labels[j] == *label {
            return Some(j);
        }
        j += 1;
    }
    assert forall|k: int| 0 <= k < views_of(labels@).len() implies views_of(labels@)[k]
        != label@ by {
        assert(views_of(labels@)[k] == labels@[k]@);
    }
    None
}

/// One line for each label of `rows`, in the order of their first entry.
pub fn group_lines(rows: &Vec<Transaction>) -> (r: Result<Vec<ProfitLossLine>, LedgerError>)
    ensures
        match r {
            Ok(lines) => lines_fit(views_of(rows@)) && views_of(lines@) == lines_of(
                views_of(rows@),
            ),
            Err(e) => e == LedgerError::Storage(StorageFault::Overflow) && !lines_fit(
                views_of(rows@),
            ),
        },
{
    let ghost all = views_of(rows@);
    let mut labels: Vec<String> = Vec::new();
    let mut totals: Vec<i128> = Vec::new();
    let mut i: usize = 0;
    assert(views_of(labels@) =~= labels_of(all.take(0)));
    while i < rows.len()
        invariant
            i <= rows.len(),
            all == views_of(rows@),
            views_of(labels@) == labels_of(all.take(i as int)),
            totals@.len() == labels@.len(),
            forall|k: int|
                0 <= k < labels@.len() ==> #[trigger] totals@[k] == label_total(
                    all.take(i as int),
                    labels@[k]@,
                ),
            forall|k: int|
                0 <= k < labels@.len() ==> 0 <= #[trigger] totals@[k] <= i
                    * 0x8000_0000_0000_0000,
        decreases rows.len() - i,
    {
        let ghost pre = all.take(i as int);
        let ghost now = all.take(i + 1);
        let ghost old_labels = views_of(labels@);
        let row = &rows[i];
        let m = magnitude(row.amount);
        proof {
            assert(now.drop_last() =~= pre);
            assert(now.last() == row@);
            assert(now.map_values(label_of()).drop_last() =~= pre.map_values(label_of()));
            assert(now.map_values(label_of()).last() == row@.category);
            distinct_has_no_repeats(pre.map_values(label_of()));
            assert forall|k: int| 0 <= k < old_labels.len() implies label_total(
                now,
                #[trigger] old_labels[k],
            ) == label_total(pre, old_labels[k]) + if old_labels[k] == row@.category {
                m as int
            } else {
                0
            } by {}
            assert(label_total(now, row@.category) == label_total(pre, row@.category) + m);
            assert forall|k: int| 0 <= k < labels@.len() implies old_labels[k]
                == (#[trigger] labels@[k])@ by {}
        }
        match place_of(&labels, &row.category) {
            Some(j) => {
                proof {
                    assert(old_labels[j as int] == row@.category);
                    assert(old_labels.contains(row@.category));
                    assert forall|k: int| 0 <= k < labels@.len() && k != j implies labels@[k]@
                        != row@.category by {
                        assert(old_labels[k] == labels@[k]@);
                        if k < j {
                            assert(old_labels[k] != old_labels[j as int]);
                        } else {
                            assert(old_labels[j as int] != old_labels[k]);
                        }
                    }
                }
                let sum: i128 = totals[j] + m;
                totals.set(j, sum);
            },
            None => {
                proof {
                    unlisted_label_has_nothing(pre, row@.category);
                }
                labels.push(row.category.clone());
                totals.push(m);
                assert(views_of(labels@) =~= old_labels.push(row@.category));
            },
        }
        i += 1;
    }
    assert(all.take(rows@.len() as int) =~= all);
    let mut lines: Vec<ProfitLossLine> = Vec::new();
    let mut k: usize = 0;
    while k < labels.len()
        invariant
            k <= labels.len(),
            all == views_of(rows@),
            views_of(labels@) == labels_of(all),
            totals@.len() == labels@.len(),
            forall|j: int|
                0 <= j < labels@.len() ==> #[trigger] totals@[j] == label_total(all, labels@[j]@),
            lines@.len() == k,
            forall|j: int| 0 <= j < k ==> fits(label_total(all, #[trigger] labels_of(all)[j])),
            forall|j: int| 0 <= j < k ==> (#[trigger] lines@[j])@ == line_for(all)(labels_of(all)[j]),
        decreases labels.len() - k,
    {
        assert(views_of(labels@)[k as int] == labels@[k as int]@);
        let total = match fit(totals[k]) {
            Ok(t) => t,
            Err(e) => {
                assert(!fits(label_total(all, labels_of(all)[k as int])));
                return Err(e);
            },
        };
        lines.push(ProfitLossLine { category: labels[k].clone(), total });
        k += 1;
    }
    assert(views_of(lines@) =~= lines_of(all));
    Ok(lines)
}

/// The texts of `items` without repeats, each at the place of its first
/// occurrence.
pub fn distinct_texts(items: &Vec<String>) -> (r: Vec<String>)
    ensures
        views_of(r@) == distinct_of(views_of(items@)),
{
    let ghost all = views_of(items@);
    let mut r: Vec<String> = Vec::new();
    let mut i: usize = 0;
    assert(views_of(r@) =~= distinct_of(all.take(0)));
    while i < items.len()
        invariant
            i <= items.len(),
            all == views_of(items@),
            views_of(r@) == distinct_of(all.take(i as int)),
        decreases items.len() - i,
    {
        let ghost before = views_of(r@);
        assert(all.take(i + 1).drop_last() =~= all.take(i as int));
        assert(all.take(i + 1).last() == items@[i as int]@);
        match place_of(&r, &items[i]) {
            Some(j) => {
                assert(before[j as int] == items@[i as int]@);
            },
            None => {
                r.push(items[i].clone());
                assert(views_of(r@) =~= before.push(items@[i as int]@));
            },
        }
        i += 1;
    }
    assert(all.take(items@.len() as int) =~= all);
    r
}

/// Whether `r` is what the rule gives, view by view.
pub open spec fn report_matches(
    r: Result<ProfitLossReport, LedgerError>,
    rule: Result<ProfitLossReportView, LedgerError>,
) -> bool {
    match r {
        Ok(report) => rule == Ok::<ProfitLossReportView, LedgerError>(report@),
        Err(e) => rule == Err::<ProfitLossReportView, LedgerError>(e),
    }
}

/// Whether `r` is what the rule gives, pair by pair.
pub open spec fn totals_match(
    r: Result<Vec<(String, i64)>, LedgerError>,
    rule: Result<Seq<(Seq<char>, i64)>, LedgerError>,
) -> bool {
    match r {
        Ok(pairs) => rule == Ok::<Seq<(Seq<char>, i64)>, LedgerError>(pair_views(pairs@)),
        Err(e) => rule == Err::<Seq<(Seq<char>, i64)>, LedgerError>(e),
    }
}

impl Database {
    /// The lines of the flow that `by` selects, the largest total first.
    fn flow_lines(&self, by: &FlowSelector) -> (r: Result<Vec<ProfitLossLine>, LedgerError>)
        ensures
            match r {
                Ok(lines) => lines_fit(keep_where(self@.transactions, by.selects())) && views_of(
                    lines@,
                ) == listed_lines(keep_where(self@.transactions, by.selects())),
                Err(e) => e == LedgerError::Storage(StorageFault::Overflow) && !lines_fit(
                    keep_where(self@.transactions, by.selects()),
                ),
            },
    {
        let rows = kept_rows(&self.transactions, by);
        match group_lines(&rows) {
            Ok(lines) => Ok(sorted_rows(&lines)),
            Err(e) => Err(e),
        }
    }

    /// The expense of `container` by label in `month`, given as `YYYY-MM`:
    /// for each label the sum of the magnitudes of its entries, the largest
    /// first. Legs of transfers are left out; a label that names no category
    /// counts as expense.
    pub fn get_category_totals_for_month(&self, container_id: i64, month: String) -> (r: Result<
        Vec<(String, i64)>,
        LedgerError,
    >)
        ensures
            totals_match(r, self@.category_totals(container_id, month@)),
    {
        let by = FlowSelector {
            categories: &self.categories,
            container: container_id,
            kind: "expense".to_owned(),
            period: Period::Month(chars_of(month.as_str())),
        };
        let lines = match self.flow_lines(&by) {
            Ok(lines) => lines,
            Err(e) => {
                return Err(e);
            },
        };
        let mut pairs: Vec<(String, i64)> = Vec::new();
        let mut i: usize = 0;
        while i < lines.len()
            invariant
                i <= lines.len(),
                pairs@.len() == i,
                forall|k: int|
                    0 <= k < i ==> (#[trigger] pairs@[k]).0@ == lines@[k]@.category && pairs@[k].1
                        == lines@[k]@.total,
            decreases lines.len() - i,
        {
            pairs.push((lines[i].category.clone(), lines[i].total));
            i += 1;
        }
        assert(pair_views(pairs@) =~= views_of(lines@).map_values(as_pair()));
        Ok(pairs)
    }

    /// The expense of `container` by label in the month of the local time.
    pub fn get_category_totals(&self, container_id: i64) -> (r: Result<
        Vec<(String, i64)>,
        LedgerError,
    >)
        ensures
            exists|now: Timestamp|
                now.is_valid() && totals_match(
                    r,
                    #[trigger] self@.category_totals(
                        container_id,
                        month_text(now.year as int, now.month as int),
                    ),
                ),
    {
        let now = Timestamp::now();
        let r = self.get_category_totals_for_month(container_id, now.month());
        assert(totals_match(
            r,
            self@.category_totals(container_id, month_text(now.year as int, now.month as int)),
        ));
        r
    }

    /// The profit-and-loss report of `container` for `month`, given as
    /// `YYYY-MM`. The net income is the total income less the total expense,
    /// and neither total is negative.
    pub fn get_profit_and_loss_for_month(&self, container_id: i64, month: String) -> (r: Result<
        ProfitLossReport,
        LedgerError,
    >)
        ensures
            report_matches(r, self@.profit_and_loss(container_id, month@)),
            r matches Ok(report) ==> report.net_income == report.total_income
                - report.total_expense && report.total_income >= 0 && report.total_expense >= 0,
    {
        let bounds = match month_range(month.as_str()) {
            Ok(b) => b,
            Err(e) => {
                return Err(e);
            },
        };
        let earned = FlowSelector {
            categories: &self.categories,
            container: container_id,
            kind: "income".to_owned(),
            period: Period::Between(chars_of(bounds.0.as_str()), chars_of(bounds.1.as_str())),
        };
        let spent = FlowSelector {
            categories: &self.categories,
            container: container_id,
            kind: "expense".to_owned(),
            period: Period::Between(chars_of(bounds.0.as_str()), chars_of(bounds.1.as_str())),
        };
        let income = match self.flow_lines(&earned) {
            Ok(lines) => lines,
            Err(e) => {
                return Err(e);
            },
        };
        let expense = match self.flow_lines(&spent) {
            Ok(lines) => lines,
            Err(e) => {
                return Err(e);
            },
        };
        let total_income = match fit(total_magnitude(&self.transactions, &earned)) {
            Ok(t) => t,
            Err(e) => {
                return Err(e);
            },
        };
        let total_expense = match fit(total_magnitude(&self.transactions, &spent)) {
            Ok(t) => t,
            Err(e) => {
                return Err(e);
            },
        };
        Ok(
            ProfitLossReport {
                start_date: bounds.0,
                end_date: bounds.1,
                income,
                expense,
                total_income,
                total_expense,
                net_income: total_income - total_expense,
            },
        )
    }

    /// The months in which `container` has entries, as `YYYY-MM`, the latest
    /// first.
    pub fn get_available_months(&self, container_id: i64) -> (r: Vec<String>)
        ensures
            views_of(r@) == self@.listed_months(container_id),
    {
        let ghost all = self@.transactions;
        let mut months: Vec<String> = Vec::new();
        let mut i: usize = 0;
        assert(views_of(months@) =~= keep_where(all.take(0), dated_in(container_id)).map_values(
            month_of(),
        ));
        while i < self.transactions.len()
            invariant
                i <= self.transactions.len(),
                all == self@.transactions,
                views_of(months@) == keep_where(
                    all.take(i as int),
                    dated_in(container_id),
                ).map_values(month_of()),
            decreases self.transactions.len() - i,
        {
            let ghost before = views_of(months@);
            let ghost kept = keep_where(all.take(i as int), dated_in(container_id));
            assert(all.take(i + 1).drop_last() =~= all.take(i as int));
            assert(all.take(i + 1).last() == self.transactions@[i as int]@);
            let row = &self.transactions[i];
            if row.container_id == container_id {
                let date = chars_of(row.date.as_str());
                if date.len() >= 7 {
                    let month = text_of(&slice_of(&date, 0, 7));
                    assert(month@ =~= row@.date.take(7));
                    months.push(month);
                    assert(views_of(months@) =~= before.push(row@.date.take(7)));
                    assert(kept.push(row@).map_values(month_of()) =~= kept.map_values(
                        month_of(),
                    ).push(row@.date.take(7)));
                }
            }
            i += 1;
        }
        assert(all.take(self.transactions@.len() as int) =~= all);
        let distinct = distinct_texts(&months);
        sorted_rows(&distinct)
    }
}

} // verus!
