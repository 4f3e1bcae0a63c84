//! Reports by category, and the figures of the dashboard.
//!
//! A transaction counts under the parent of its category, or under the
//! category itself where it has no parent.

use crate::analytics::{
    count_in, kind_total, period_change, span_days, totals_by_kind, FLOW_LIMIT,
};
use crate::balance::{calc_net_worth_at, net_worth, Scope};
use crate::date::{day_number, lemma_day_number_order, pred_spec, Date};
use crate::ledger::{
    category_with_id, has_category, lemma_category_index, posting_ok, Ledger, LedgerView,
};
use crate::model::{
    Category, EngineError, PostedTransaction, TransactionType, MAX_AMOUNT, MAX_ROWS,
};
use crate::money::{div_round, round_div};
use crate::sums::{
    lemma_prefix_sum_bounds, lemma_sum_take_all, lemma_sum_take_step,
    seq_sum,
};
use vstd::prelude::*;

verus! {

/// The largest sum of the totals of all categories.
pub const REPORT_LIMIT: i128 = 1_000_000_001_000_000_000_000_000_000_000_000;

/// What was moved under a category, and in how many transactions.
#[derive(Clone, Copy, Debug, PartialEq, Eq, Structural)]
pub struct CategoryTotal {
    pub category_id: i64,
    pub total_amount: i128,
    pub transaction_count: i64,
}

/// What was moved under a category, as a share of all that was moved, in
/// hundredths of a percent.
#[derive(Clone, Copy, Debug, PartialEq, Eq, Structural)]
pub struct CategorySpending {
    pub category_id: i64,
    pub total_amount: i128,
    pub transaction_count: i64,
    pub percentage: i128,
}

/// The figures of the dashboard. The savings rate is in hundredths of a
/// percent.
#[derive(Clone, Copy, Debug, PartialEq, Eq, Structural)]
pub struct AnalyticsDashboard {
    pub net_worth: i128,
    pub net_worth_change: i128,
    pub total_income_this_month: i128,
    pub total_expense_this_month: i128,
    pub savings_rate: i128,
    pub top_expense_category: Option<i64>,
    pub top_expense_amount: i128,
    pub daily_average_expense: i128,
    pub days_in_period: i64,
}

/// The category under which a transaction of the category `c` counts: the
/// parent of `c`, or `c` itself where it has none.
pub open spec fn rollup_id(categories: Seq<Category>, c: int) -> int {
    if has_category(categories, c) {
        match category_with_id(categories, c).parent_id {
            Some(p) => p as int,
            None => c,
        }
    } else {
        c
    }
}

/// The category under which a transaction of the category `c` counts.
pub fn rollup_of(ledger: &Ledger, c: i64) -> (r: i64)
    requires
        ledger.wf(),
    ensures
        r == rollup_id(ledger@.categories, c as int),
{
    match ledger.find_category(c) {
        None => c,
        Some(k) => {
            proof {
                lemma_category_index(ledger@.categories, k as int);
            }
            match ledger.categories()[k].parent_id {
                Some(p) => p,
                None => c,
            }
        },
    }
}

/// The posting is of the kind, in the scope, and counts under the target
/// category.
pub open spec fn in_group(
    categories: Seq<Category>,
    target: int,
    kind: TransactionType,
    scope: Scope,
    p: PostedTransaction,
) -> bool {
    p.transaction.transaction_type == kind && scope.holds(p.transaction.date)
        && p.transaction.category_id is Some && rollup_id(
        categories,
        p.transaction.category_id.unwrap() as int,
    ) == target
}

pub open spec fn group_term(
    categories: Seq<Category>,
    target: int,
    kind: TransactionType,
    scope: Scope,
) -> spec_fn(PostedTransaction) -> int {
    |p: PostedTransaction|
        if in_group(categories, target, kind, scope, p) {
            p.transaction.amount as int
        } else {
            0
        }
}

pub open spec fn group_count_term(
    categories: Seq<Category>,
    target: int,
    kind: TransactionType,
    scope: Scope,
) -> spec_fn(PostedTransaction) -> int {
    |p: PostedTransaction|
        if in_group(categories, target, kind, scope, p) {
            1
        } else {
            0
        }
}

/// The sum of the amounts of the transactions of a kind in a scope that
/// count under a category.
pub open spec fn group_total(v: LedgerView, target: int, kind: TransactionType, scope: Scope)
    -> int {
    seq_sum(v.postings, group_term(v.categories, target, kind, scope))
}

/// The number of the transactions of a kind in a scope that count under a
/// category.
pub open spec fn group_count(v: LedgerView, target: int, kind: TransactionType, scope: Scope)
    -> int {
    seq_sum(v.postings, group_count_term(v.categories, target, kind, scope))
}

/// Sum and number of the transactions of a kind in a scope that count
/// under a category.
pub fn group_totals(ledger: &Ledger, target: i64, kind: TransactionType, scope: Scope) -> (r: (
    i128,
    i64,
))
    requires
        ledger.wf(),
    ensures
        r.0 == group_total(ledger@, target as int, kind, scope),
        r.1 == group_count(ledger@, target as int, kind, scope),
        0 <= r.0 <= FLOW_LIMIT,
        0 <= r.1 <= MAX_ROWS,
{
    let postings = ledger.postings();
    let ghost fa = group_term(ledger@.categories, target as int, kind, scope);
    let ghost fc = group_count_term(ledger@.categories, target as int, kind, scope);
    let mut sum: i128 = 0;
    let mut count: i64 = 0;
    let mut i: usize = 0;
    while i < postings.len()
        invariant
            i <= postings.len(),
            postings@ == ledger@.postings,
            ledger.wf(),
            fa == group_term(ledger@.categories, target as int, kind, scope),
            fc == group_count_term(ledger@.categories, target as int, kind, scope),
            sum == seq_sum(postings@.take(i as int), fa),
            count == seq_sum(postings@.take(i as int), fc),
            0 <= sum <= FLOW_LIMIT,
            0 <= count <= i,
        decreases postings.len() - i,
    {
        let t = &postings[i].transaction;
        proof {
            lemma_sum_take_step(postings@, i as int, fa);
            lemma_sum_take_step(postings@, i as int, fc);
            assert forall|k: int| 0 <= k < postings@.len() implies 0 <= fa(#[trigger] postings@[k])
                <= MAX_AMOUNT by {
                assert(posting_ok(postings@[k]));
            }
            lemma_prefix_sum_bounds(postings@, i + 1, fa, 0, MAX_AMOUNT as int, MAX_ROWS as int);
        }
        if t.transaction_type == kind && scope.contains(&t.date) {
            match t.category_id {
                Some(c) => {
                    if rollup_of(ledger, c) == target {
                        sum = sum + t.amount as i128;
                        count = count + 1;
                    }
                },
                None => {},
            }
        }
        i += 1;
    }
    proof {
        lemma_sum_take_all(postings@, fa);
        lemma_sum_take_all(postings@, fc);
    }
    (sum, count)
}

/// The totals of the first `n` categories of the ledger, those left out
/// under which no transaction counts.
pub open spec fn category_rows(v: LedgerView, kind: TransactionType, scope: Scope, n: int) -> Seq<
    CategoryTotal,
>
    decreases n,
{
    if n <= 0 {
        Seq::empty()
    } else {
        let front = category_rows(v, kind, scope, n - 1);
        let id = v.categories[n - 1].id;
        if group_count(v, id as int, kind, scope) > 0 {
            front.push(
                CategoryTotal {
                    category_id: id,
                    total_amount: group_total(v, id as int, kind, scope) as i128,
                    transaction_count: group_count(v, id as int, kind, scope) as i64,
                },
            )
        } else {
            front
        }
    }
}

/// Every row holds a total and a count of a ledger.
pub open spec fn rows_bounded(rows: Seq<CategoryTotal>) -> bool {
    forall|i: int|
        0 <= i < rows.len() ==> 0 <= (#[trigger] rows[i]).total_amount <= FLOW_LIMIT
}

/// The totals of the categories under which a transaction of the kind in
/// the scope counts, in the order of the ledger.
pub fn category_totals(ledger: &Ledger, kind: TransactionType, scope: Scope) -> (r: Vec<
    CategoryTotal,
>)
    requires
        ledger.wf(),
    ensures
        r@ == category_rows(ledger@, kind, scope, ledger@.categories.len() as int),
        rows_bounded(r@),
        r@.len() <= MAX_ROWS,
{
    let categories = ledger.categories();
    let mut out: Vec<CategoryTotal> = Vec::new();
    let mut i: usize = 0;
    while i < categories.len()
        invariant
            i <= categories.len(),
            categories@ == ledger@.categories,
            ledger.wf(),
            out@ == category_rows(ledger@, kind, scope, i as int),
            rows_bounded(out@),
            out@.len() <= i,
        decreases categories.len() - i,
    {
        let id = categories[i].id;
        let (total, count) = group_totals(ledger, id, kind, scope);
        if count > 0 {
            out.push(CategoryTotal { category_id: id, total_amount: total, transaction_count: count });
        }
        i += 1;
    }
    out
}

/// The rows stand with the largest total first.
pub open spec fn largest_first(rows: Seq<CategoryTotal>) -> bool {
    forall|i: int, j: int|
        0 <= i < j < rows.len() ==> (#[trigger] rows[i]).total_amount >= (
        #[trigger] rows[j]).total_amount
}

/// Puts the rows in the order of their totals, the largest first; rows
/// with the same total keep their order.
pub fn sort_by_amount(rows: &Vec<CategoryTotal>) -> (r: Vec<CategoryTotal>)
    ensures
        largest_first(r@),
        r@.to_multiset() == rows@.to_multiset(),
        r@.len() == rows@.len(),
{
    broadcast use vstd::seq_lib::group_to_multiset_ensures;

    let mut out: Vec<CategoryTotal> = Vec::new();
    let mut i: usize = 0;
    while i < rows.len()
        invariant
            i <= rows.len(),
            out@.len() == i,
            largest_first(out@),
            out@.to_multiset() == rows@.take(i as int).to_multiset(),
        decreases rows.len() - i,
    {
        let x = rows[i];
        let mut p: usize = 0;
        while p < out.len() && out[p].total_amount >= x.total_amount
            invariant
                p <= out.len(),
                forall|k: int| 0 <= k < p ==> (#[trigger] out@[k]).total_amount >= x.total_amount,
            decreases out.len() - p,
        {
            p += 1;
        }
        let ghost before = out@;
        out.insert(p, x);
        proof {
            assert(out@ =~= before.insert(p as int, x));
            assert(rows@.take(i + 1) =~= rows@.take(i as int).push(x));
            vstd::seq_lib::to_multiset_insert(before, p as int, x);
            vstd::seq_lib::to_multiset_build(rows@.take(i as int), x);
            assert forall|a: int, b: int| 0 <= a < b < out@.len() implies (
            #[trigger] out@[a]).total_amount >= (#[trigger] out@[b]).total_amount by {
                let a0 = if a < p {
                    a
                } else {
                    a - 1
                };
                let b0 = if b < p {
                    b
                } else {
                    b - 1
                };
                if a == p {
                    assert(out@[b] == before[b - 1]);
                    if b - 1 > p {
                        assert(before[p as int].total_amount >= before[b - 1].total_amount);
                    }
                } else if b == p {
                    assert(out@[a] == before[a]);
                } else {
                    assert(out@[a] == before[a0]);
                    assert(out@[b] == before[b0]);
                }
            }
        }
        i += 1;
    }
    proof {
        assert(rows@.take(i as int) =~= rows@);
    }
    out
}

pub open spec fn amount_term() -> spec_fn(CategoryTotal) -> int {
    |r: CategoryTotal| r.total_amount as int
}

/// The sum of the totals of the rows.
pub open spec fn rows_total(rows: Seq<CategoryTotal>) -> int {
    seq_sum(rows, amount_term())
}

/// The sum of the totals of the rows.
pub fn sum_rows(rows: &Vec<CategoryTotal>) -> (r: i128)
    requires
        rows_bounded(rows@),
        rows@.len() <= MAX_ROWS + 1,
    ensures
        r == rows_total(rows@),
        0 <= r <= REPORT_LIMIT,
{
    let ghost f = amount_term();
    let mut sum: i128 = 0;
    let mut i: usize = 0;
    while i < rows.len()
        invariant
            i <= rows.len(),
            rows_bounded(rows@),
            rows@.len() <= MAX_ROWS + 1,
            f == amount_term(),
            sum == seq_sum(rows@.take(i as int), f),
            0 <= sum <= REPORT_LIMIT,
        decreases rows.len() - i,
    {
        proof {
            lemma_sum_take_step(rows@, i as int, f);
            lemma_prefix_sum_bounds(rows@, i + 1, f, 0, FLOW_LIMIT as int, MAX_ROWS + 1);
        }
        sum = sum + rows[i].total_amount;
        i += 1;
    }
    proof {
        lemma_sum_take_all(rows@, f);
    }
    sum
}

/// A part as a share of the whole, in hundredths of a percent; nothing
/// of a whole of nothing.
pub open spec fn share_of(part: int, whole: int) -> int {
    if whole > 0 {
        div_round(part * 10000, whole)
    } else {
        0
    }
}

/// A row with its share of the whole.
pub open spec fn spending_of(row: CategoryTotal, whole: int) -> CategorySpending {
    CategorySpending {
        category_id: row.category_id,
        total_amount: row.total_amount,
        transaction_count: row.transaction_count,
        percentage: share_of(row.total_amount as int, whole) as i128,
    }
}

/// The row without its share.
pub open spec fn total_of(s: CategorySpending) -> CategoryTotal {
    CategoryTotal {
        category_id: s.category_id,
        total_amount: s.total_amount,
        transaction_count: s.transaction_count,
    }
}

/// What was moved under every category in transactions of a kind from
/// `start_date` to `end_date`, the largest total first, each with its
/// share of all of it.
pub fn get_category_spending(
    ledger: &Ledger,
    start_date: Date,
    end_date: Date,
    kind: TransactionType,
) -> (r: Vec<CategorySpending>)
    requires
        ledger.wf(),
    ensures
        ({
            let rows = category_rows(
                ledger@,
                kind,
                Scope::Between(start_date, end_date),
                ledger@.categories.len() as int,
            );
            let shown = r@.map_values(|s: CategorySpending| total_of(s));
            &&& r@.len() == rows.len()
            &&& largest_first(shown)
            &&& shown.to_multiset() == rows.to_multiset()
            &&& forall|i: int|
                0 <= i < r@.len() ==> (#[trigger] r@[i]).percentage == share_of(
                    r@[i].total_amount as int,
                    rows_total(rows),
                )
        }),
{
    let rows = category_totals(ledger, kind, Scope::Between(start_date, end_date));
    let whole = sum_rows(&rows);
    let sorted = sort_by_amount(&rows);
    let mut out: Vec<CategorySpending> = Vec::new();
    let mut i: usize = 0;
    proof {
        lemma_rows_bounded(rows@, sorted@);
    }
    while i < sorted.len()
        invariant
            i <= sorted.len(),
            out@.len() == i,
            rows_bounded(sorted@),
            0 <= whole <= REPORT_LIMIT,
            forall|k: int| 0 <= k < i ==> #[trigger] out@[k] == spending_of(sorted@[k], whole as int),
        decreases sorted.len() - i,
    {
        let row = sorted[i];
        let percentage = if whole > 0 {
            round_div(row.total_amount * 10000, whole)
        } else {
            0
        };
        out.push(
            CategorySpending {
                category_id: row.category_id,
                total_amount: row.total_amount,
                transaction_count: row.transaction_count,
                percentage,
            },
        );
        i += 1;
    }
    proof {
        let shown = out@.map_values(|s: CategorySpending| total_of(s));
        assert(shown =~= sorted@);
    }
    out
}

/// Rows that hold the same items as bounded rows are bounded.
pub proof fn lemma_rows_bounded(rows: Seq<CategoryTotal>, other: Seq<CategoryTotal>)
    requires
        rows_bounded(rows),
        other.to_multiset() == rows.to_multiset(),
    ensures
        rows_bounded(other),
{
    broadcast use vstd::seq_lib::group_to_multiset_ensures;

    assert forall|i: int| 0 <= i < other.len() implies 0 <= (#[trigger] other[i]).total_amount
        <= FLOW_LIMIT by {
        assert(other.contains(other[i]));
        assert(other.to_multiset().count(other[i]) > 0);
        assert(rows.contains(other[i]));
        let j = choose|j: int| 0 <= j < rows.len() && rows[j] == other[i];
        assert(rows[j].total_amount == other[i].total_amount);
    }
}

/// The place of the first row with the largest total.
pub open spec fn largest_row(rows: Seq<CategoryTotal>) -> Option<int>
    decreases rows.len(),
{
    if rows.len() == 0 {
        None
    } else {
        let front = largest_row(rows.drop_last());
        let last = rows.len() - 1;
        if front is None || rows[last].total_amount > rows[front.unwrap()].total_amount {
            Some(last)
        } else {
            front
        }
    }
}

/// The place of the first row with the largest total.
pub fn find_largest(rows: &Vec<CategoryTotal>) -> (r: Option<usize>)
    ensures
        match r {
            Some(k) => largest_row(rows@) == Some(k as int) && k < rows@.len(),
            None => largest_row(rows@) is None,
        },
{
    let mut best: Option<usize> = None;
    let mut i: usize = 0;
    while i < rows.len()
        invariant
            i <= rows.len(),
            match best {
                Some(b) => b < i && largest_row(rows@.take(i as int)) == Some(b as int),
                None => largest_row(rows@.take(i as int)) is None,
            },
        decreases rows.len() - i,
    {
        proof {
            assert(rows@.take(i + 1).drop_last() =~= rows@.take(i as int));
        }
        match best {
            None => {
                best = Some(i);
            },
            Some(b) => {
                if rows[i].total_amount > rows[b].total_amount {
                    best = Some(i);
                }
            },
        }
        i += 1;
    }
    proof {
        assert(rows@.take(i as int) =~= rows@);
    }
    best
}

/// The first day of the month of a date.
pub open spec fn month_start(today: Date) -> Date {
    Date { year: today.year, month: today.month, day: 1 }
}

/// The figures of the dashboard on a day:
/// - net worth over the whole journal, and its change since the last day
///   of the month before;
/// - income and expense of the month up to the day, and what is left of
///   the income as a share of it;
/// - the category under which most was spent in the month, with the
///   amount;
/// - the expense of the month by the day of the month.
pub open spec fn dashboard(v: LedgerView, today: Date) -> AnalyticsDashboard {
    let first = month_start(today);
    let month = Scope::Between(first, today);
    let income = kind_total(v.postings, TransactionType::Income, month);
    let expense = kind_total(v.postings, TransactionType::Expense, month);
    let worth = net_worth(v, Scope::All);
    let before = match pred_spec(first) {
        Some(d) => d,
        None => first,
    };
    let rows = category_rows(v, TransactionType::Expense, month, v.categories.len() as int);
    AnalyticsDashboard {
        net_worth: worth as i128,
        net_worth_change: (worth - net_worth(v, Scope::UpTo(before))) as i128,
        total_income_this_month: income as i128,
        total_expense_this_month: expense as i128,
        savings_rate: share_of(income - expense, income) as i128,
        top_expense_category: match largest_row(rows) {
            Some(k) => Some(rows[k].category_id),
            None => None,
        },
        top_expense_amount: match largest_row(rows) {
            Some(k) => rows[k].total_amount,
            None => 0,
        },
        daily_average_expense: div_round(expense, today.day as int) as i128,
        days_in_period: today.day as i64,
    }
}

/// The figures of the dashboard on a day.
pub fn get_analytics_dashboard(ledger: &Ledger, today: Date) -> (r: AnalyticsDashboard)
    requires
        ledger.wf(),
        today.valid(),
    ensures
        r == dashboard(ledger@, today),
{
    let first = Date { year: today.year, month: today.month, day: 1 };
    let month = Scope::Between(first, today);
    let (income, expense, _count) = totals_by_kind(ledger, month);
    let (assets, liabilities) = calc_net_worth_at(ledger, None);
    let worth = assets - liabilities;
    let before = match first.pred() {
        Some(d) => d,
        None => first,
    };
    let (earlier_assets, earlier_liabilities) = calc_net_worth_at(ledger, Some(before));
    let rows = category_totals(ledger, TransactionType::Expense, month);
    let (top_expense_category, top_expense_amount) = match find_largest(&rows) {
        Some(k) => (Some(rows[k].category_id), rows[k].total_amount),
        None => (None, 0),
    };
    let savings_rate = if income > 0 {
        round_div((income - expense) * 10000, income)
    } else {
        0
    };
    AnalyticsDashboard {
        net_worth: worth,
        net_worth_change: worth - (earlier_assets - earlier_liabilities),
        total_income_this_month: income,
        total_expense_this_month: expense,
        savings_rate,
        top_expense_category,
        top_expense_amount,
        daily_average_expense: round_div(expense, today.day as i128),
        days_in_period: today.day as i64,
    }
}

/// A category among those under which most was moved, beside what was
/// moved under it in the period before. Percentages are in hundredths of
/// a percent.
#[derive(Clone, Copy, Debug, PartialEq, Eq, Structural)]
pub struct TopCategory {
    pub category_id: i64,
    pub current_amount: i128,
    pub previous_amount: i128,
    pub change: i128,
    pub change_percentage: i128,
    pub transaction_count: i64,
    pub percentage_of_total: i128,
}

/// What was moved under one child of a category.
#[derive(Clone, Copy, Debug, PartialEq, Eq, Structural)]
pub struct SubcategoryItem {
    pub category_id: i64,
    pub amount: i128,
    pub percentage: i128,
    pub transaction_count: i64,
}

/// What was moved under a category, child by child.
#[derive(Debug)]
pub struct SubcategoryBreakdown {
    pub parent_category_id: i64,
    pub total_amount: i128,
    pub subcategories: Vec<SubcategoryItem>,
}

/// Income and expense of one day.
#[derive(Clone, Copy, Debug, PartialEq, Eq, Structural)]
pub struct DailySummary {
    pub date: Date,
    pub total_income: i128,
    pub total_expense: i128,
    pub net: i128,
    pub transaction_count: i64,
}

/// The range of days before `start_date` that is as long as the range
/// from `start_date` to `end_date`.
pub open spec fn previous_period(start_date: Date, end_date: Date, before: (Date, Date)) -> bool {
    &&& before.1 == (match pred_spec(start_date) {
        Some(d) => d,
        None => start_date,
    })
    &&& before.0.valid()
    &&& day_number(before.0) == day_number(before.1) - (day_number(end_date) - day_number(
        start_date,
    ))
}

/// A row of the top categories: what was moved under the category now and
/// in the period before, the change, and the share of the total of the
/// rows that are shown.
pub open spec fn top_row(v: LedgerView, row: CategoryTotal, kind: TransactionType, before: (
    Date,
    Date,
), whole: int) -> TopCategory {
    let previous = group_total(
        v,
        row.category_id as int,
        kind,
        Scope::Between(before.0, before.1),
    );
    TopCategory {
        category_id: row.category_id,
        current_amount: row.total_amount,
        previous_amount: previous as i128,
        change: (row.total_amount - previous) as i128,
        change_percentage: period_change(row.total_amount as int, previous) as i128,
        transaction_count: row.transaction_count,
        percentage_of_total: share_of(row.total_amount as int, whole) as i128,
    }
}

/// `out` shows the first rows of `sorted`, the categories with their
/// totals in the order of the totals, each beside the period `before`.
pub open spec fn top_shown(
    v: LedgerView,
    start_date: Date,
    end_date: Date,
    kind: TransactionType,
    limit: Option<i32>,
    sorted: Seq<CategoryTotal>,
    before: (Date, Date),
    out: Seq<TopCategory>,
) -> bool {
    let rows = category_rows(
        v,
        kind,
        Scope::Between(start_date, end_date),
        v.categories.len() as int,
    );
    let shown = sorted.take(shown_rows(sorted.len(), limit));
    &&& largest_first(sorted)
    &&& sorted.to_multiset() == rows.to_multiset()
    &&& out.len() == shown.len()
    &&& forall|i: int|
        0 <= i < out.len() ==> #[trigger] out[i] == top_row(
            v,
            shown[i],
            kind,
            before,
            rows_total(shown),
        )
}

/// `out` shows the categories under which most was moved from
/// `start_date` to `end_date`, the largest first, each beside the range
/// of the same length before.
pub open spec fn top_listed(
    v: LedgerView,
    start_date: Date,
    end_date: Date,
    kind: TransactionType,
    limit: Option<i32>,
    out: Seq<TopCategory>,
) -> bool {
    exists|sorted: Seq<CategoryTotal>, first: Date, last: Date|
        previous_period(start_date, end_date, (first, last)) && #[trigger] top_shown(
            v,
            start_date,
            end_date,
            kind,
            limit,
            sorted,
            (first, last),
            out,
        )
}

/// How many rows are shown of `len` when `limit` are asked for: ten
/// where no number is given, all for a negative number.
pub open spec fn shown_rows(len: nat, limit: Option<i32>) -> int {
    let asked = match limit {
        Some(n) => n as int,
        None => 10,
    };
    if asked < 0 || asked >= len {
        len as int
    } else {
        asked
    }
}

/// The categories under which most was moved in transactions of a kind
/// from `start_date` to `end_date`, the largest first, each beside what
/// was moved under it from `previous_start` to `previous_end`.
pub fn top_categories_beside(
    ledger: &Ledger,
    start_date: Date,
    end_date: Date,
    kind: TransactionType,
    limit: Option<i32>,
    previous_start: Date,
    previous_end: Date,
) -> (r: Vec<TopCategory>)
    requires
        ledger.wf(),
    ensures
        exists|sorted: Seq<CategoryTotal>| #[trigger]
            top_shown(
                ledger@,
                start_date,
                end_date,
                kind,
                limit,
                sorted,
                (previous_start, previous_end),
                r@,
            ),
{
    let rows = category_totals(ledger, kind, Scope::Between(start_date, end_date));
    let sorted = sort_by_amount(&rows);
    proof {
        lemma_rows_bounded(rows@, sorted@);
    }
    let asked: i64 = match limit {
        Some(n) => n as i64,
        None => 10,
    };
    let count: usize = if asked < 0 || asked as u64 >= sorted.len() as u64 {
        sorted.len()
    } else {
        asked as usize
    };
    let mut shown: Vec<CategoryTotal> = Vec::new();
    let mut i: usize = 0;
    while i < count
        invariant
            i <= count <= sorted.len(),
            shown@ == sorted@.take(i as int),
        decreases count - i,
    {
        shown.push(sorted[i]);
        proof {
            assert(sorted@.take(i + 1) =~= sorted@.take(i as int).push(sorted@[i as int]));
        }
        i += 1;
    }
    assert(rows_bounded(shown@)) by {
        assert forall|k: int| 0 <= k < shown@.len() implies 0 <= (#[trigger] shown@[k]).total_amount
            <= FLOW_LIMIT by {
            assert(shown@[k] == sorted@[k]);
        }
    }
    let whole = sum_rows(&shown);
    let ghost before = (previous_start, previous_end);
    let mut out: Vec<TopCategory> = Vec::new();
    let mut j: usize = 0;
    while j < shown.len()
        invariant
            j <= shown.len(),
            ledger.wf(),
            rows_bounded(shown@),
            0 <= whole <= REPORT_LIMIT,
            whole == rows_total(shown@),
            before == (previous_start, previous_end),
            out@.len() == j,
            forall|k: int|
                0 <= k < j ==> #[trigger] out@[k] == top_row(
                    ledger@,
                    shown@[k],
                    kind,
                    before,
                    whole as int,
                ),
        decreases shown.len() - j,
    {
        let row = shown[j];
        let (previous, _count) = group_totals(
            ledger,
            row.category_id,
            kind,
            Scope::Between(previous_start, previous_end),
        );
        let change_percentage = if previous > 0 {
            round_div((row.total_amount - previous) * 10000, previous)
        } else if row.total_amount > 0 {
            10000
        } else {
            0
        };
        let percentage_of_total = if whole > 0 {
            round_div(row.total_amount * 10000, whole)
        } else {
            0
        };
        out.push(
            TopCategory {
                category_id: row.category_id,
                current_amount: row.total_amount,
                previous_amount: previous,
                change: row.total_amount - previous,
                change_percentage,
                transaction_count: row.transaction_count,
                percentage_of_total,
            },
        );
        j += 1;
    }
    proof {
        assert(shown@ == sorted@.take(shown_rows(sorted@.len(), limit)));
        assert(top_shown(
            ledger@,
            start_date,
            end_date,
            kind,
            limit,
            sorted@,
            (previous_start, previous_end),
            out@,
        ));
    }
    out
}

/// The categories under which most was moved in transactions of a kind
/// from `start_date` to `end_date`, the largest first, each beside what
/// was moved under it in the range of the same length before.
pub fn get_top_categories(
    ledger: &Ledger,
    start_date: Date,
    end_date: Date,
    kind: TransactionType,
    limit: Option<i32>,
) -> (r: Result<Vec<TopCategory>, EngineError>)
    requires
        ledger.wf(),
        start_date.valid(),
        end_date.valid(),
    ensures
        match r {
            Ok(v) => top_listed(ledger@, start_date, end_date, kind, limit, v@),
            Err(e) => e == EngineError::DateOutOfRange && !exists|first: Date, last: Date| #[trigger]
                previous_period(start_date, end_date, (first, last)),
        },
{
    let length = end_date.days_since(&start_date);
    let previous_end = match start_date.pred() {
        Some(d) => d,
        None => start_date,
    };
    proof {
        crate::date::lemma_day_number_bounds(start_date);
        crate::date::lemma_day_number_bounds(end_date);
        if crate::date::pred_spec(start_date) is Some {
            lemma_pred_valid(start_date);
        }
    }
    let previous_start = match previous_end.plus_days(-length) {
        Some(d) => d,
        None => {
            proof {
                assert forall|first: Date, last: Date| !previous_period(
                    start_date,
                    end_date,
                    (first, last),
                ) by {
                    if previous_period(start_date, end_date, (first, last)) {
                        assert(first.valid() && day_number(first) == day_number(previous_end)
                            + (-length));
                    }
                }
            }
            return Err(EngineError::DateOutOfRange);
        },
    };
    assert(previous_period(start_date, end_date, (previous_start, previous_end)));
    let out = top_categories_beside(
        ledger,
        start_date,
        end_date,
        kind,
        limit,
        previous_start,
        previous_end,
    );
    assert(top_listed(ledger@, start_date, end_date, kind, limit, out@));
    Ok(out)
}

/// The day before a day of the calendar is a day of the calendar.
pub proof fn lemma_pred_valid(d: Date)
    requires
        d.valid(),
        pred_spec(d) is Some,
    ensures
        pred_spec(d).unwrap().valid(),
{
}

/// What was moved directly under a category in transactions of a kind in
/// a scope: the transactions of the category itself.
pub open spec fn direct_term(target: int, kind: TransactionType, scope: Scope) -> spec_fn(
    PostedTransaction,
) -> int {
    |p: PostedTransaction|
        if p.transaction.transaction_type == kind && scope.holds(p.transaction.date)
            && p.transaction.category_id == Some(target as i64) {
            p.transaction.amount as int
        } else {
            0
        }
}

pub open spec fn direct_count_term(target: int, kind: TransactionType, scope: Scope) -> spec_fn(
    PostedTransaction,
) -> int {
    |p: PostedTransaction|
        if p.transaction.transaction_type == kind && scope.holds(p.transaction.date)
            && p.transaction.category_id == Some(target as i64) {
            1
        } else {
            0
        }
}

/// The sum of the transactions of a category itself.
pub open spec fn direct_total(v: LedgerView, target: int, kind: TransactionType, scope: Scope)
    -> int {
    seq_sum(v.postings, direct_term(target, kind, scope))
}

/// The number of the transactions of a category itself.
pub open spec fn direct_count(v: LedgerView, target: int, kind: TransactionType, scope: Scope)
    -> int {
    seq_sum(v.postings, direct_count_term(target, kind, scope))
}

/// Sum and number of the transactions of a category itself.
pub fn direct_totals(ledger: &Ledger, target: i64, kind: TransactionType, scope: Scope) -> (r: (
    i128,
    i64,
))
    requires
        ledger.wf(),
    ensures
        r.0 == direct_total(ledger@, target as int, kind, scope),
        r.1 == direct_count(ledger@, target as int, kind, scope),
        0 <= r.0 <= FLOW_LIMIT,
        0 <= r.1 <= MAX_ROWS,
{
    let postings = ledger.postings();
    let ghost fa = direct_term(target as int, kind, scope);
    let ghost fc = direct_count_term(target as int, kind, scope);
    let mut sum: i128 = 0;
    let mut count: i64 = 0;
    let mut i: usize = 0;
    while i < postings.len()
        invariant
            i <= postings.len(),
            postings@ == ledger@.postings,
            ledger.wf(),
            fa == direct_term(target as int, kind, scope),
            fc == direct_count_term(target as int, kind, scope),
            sum == seq_sum(postings@.take(i as int), fa),
            count == seq_sum(postings@.take(i as int), fc),
            0 <= sum <= FLOW_LIMIT,
            0 <= count <= i,
        decreases postings.len() - i,
    {
        let t = &postings[i].transaction;
        proof {
            lemma_sum_take_step(postings@, i as int, fa);
            lemma_sum_take_step(postings@, i as int, fc);
            assert forall|k: int| 0 <= k < postings@.len() implies 0 <= fa(#[trigger] postings@[k])
                <= MAX_AMOUNT by {
                assert(posting_ok(postings@[k]));
            }
            lemma_prefix_sum_bounds(postings@, i + 1, fa, 0, MAX_AMOUNT as int, MAX_ROWS as int);
        }
        let in_category = match t.category_id {
            Some(c) => c == target,
            None => false,
        };
        if t.transaction_type == kind && scope.contains(&t.date) && in_category {
            sum = sum + t.amount as i128;
            count = count + 1;
        }
        i += 1;
    }
    proof {
        lemma_sum_take_all(postings@, fa);
        lemma_sum_take_all(postings@, fc);
    }
    (sum, count)
}

/// The rows of the first `n` categories that are children of a parent,
/// each with what was moved under the child itself.
pub open spec fn child_rows(
    v: LedgerView,
    parent: int,
    kind: TransactionType,
    scope: Scope,
    n: int,
) -> Seq<CategoryTotal>
    decreases n,
{
    if n <= 0 {
        Seq::empty()
    } else {
        let front = child_rows(v, parent, kind, scope, n - 1);
        let c = v.categories[n - 1];
        if c.parent_id == Some(parent as i64) {
            front.push(
                CategoryTotal {
                    category_id: c.id,
                    total_amount: direct_total(v, c.id as int, kind, scope) as i128,
                    transaction_count: direct_count(v, c.id as int, kind, scope) as i64,
                },
            )
        } else {
            front
        }
    }
}

/// The rows that a breakdown shows: the children, the largest first, and
/// after them the parent itself where it has children and something was
/// moved under it directly.
pub open spec fn breakdown_rows(sorted: Seq<CategoryTotal>, parent: CategoryTotal) -> Seq<
    CategoryTotal,
> {
    if sorted.len() > 0 && parent.total_amount > 0 {
        sorted.push(parent)
    } else {
        sorted
    }
}

/// The breakdown shows the rows of `sorted`, the children of the parent
/// in the order of their totals, and the parent itself after them.
pub open spec fn breakdown_shown(
    v: LedgerView,
    parent: i64,
    scope: Scope,
    kind: TransactionType,
    sorted: Seq<CategoryTotal>,
    shown_parent: i64,
    shown_total: i128,
    items: Seq<SubcategoryItem>,
) -> bool {
    let children = child_rows(v, parent as int, kind, scope, v.categories.len() as int);
    let own = CategoryTotal {
        category_id: parent,
        total_amount: direct_total(v, parent as int, kind, scope) as i128,
        transaction_count: direct_count(v, parent as int, kind, scope) as i64,
    };
    let rows = breakdown_rows(sorted, own);
    let whole = if children.len() > 0 {
        rows_total(rows)
    } else {
        own.total_amount as int
    };
    &&& largest_first(sorted)
    &&& sorted.to_multiset() == children.to_multiset()
    &&& shown_parent == parent
    &&& shown_total == whole
    &&& items.len() == rows.len()
    &&& forall|i: int| 0 <= i < rows.len() ==> #[trigger] items[i] == item_of(rows[i], whole)
}

/// The breakdown shows the children of the parent, the largest first,
/// and the parent itself after them.
pub open spec fn breakdown_listed(
    v: LedgerView,
    parent: i64,
    scope: Scope,
    kind: TransactionType,
    shown_parent: i64,
    shown_total: i128,
    items: Seq<SubcategoryItem>,
) -> bool {
    exists|sorted: Seq<CategoryTotal>| #[trigger]
        breakdown_shown(v, parent, scope, kind, sorted, shown_parent, shown_total, items)
}

/// A row of a breakdown with its share of the whole.
pub open spec fn item_of(row: CategoryTotal, whole: int) -> SubcategoryItem {
    SubcategoryItem {
        category_id: row.category_id,
        amount: row.total_amount,
        percentage: share_of(row.total_amount as int, whole) as i128,
        transaction_count: row.transaction_count,
    }
}

/// What was moved under a category from `start_date` to `end_date` in
/// transactions of a kind, child by child, the largest first, with what
/// was moved under the category itself as a last row.
pub fn get_subcategory_breakdown(
    ledger: &Ledger,
    parent_category_id: i64,
    start_date: Date,
    end_date: Date,
    kind: TransactionType,
) -> (r: Result<SubcategoryBreakdown, EngineError>)
    requires
        ledger.wf(),
    ensures
        match r {
            Ok(b) => has_category(ledger@.categories, parent_category_id as int)
                && breakdown_listed(
                ledger@,
                parent_category_id,
                Scope::Between(start_date, end_date),
                kind,
                b.parent_category_id,
                b.total_amount,
                b.subcategories@,
            ),
            Err(e) => e == EngineError::CategoryNotFound && !has_category(
                ledger@.categories,
                parent_category_id as int,
            ),
        },
{
    if ledger.find_category(parent_category_id).is_none() {
        return Err(EngineError::CategoryNotFound);
    }
    let scope = Scope::Between(start_date, end_date);
    let (direct_amount, direct_number) = direct_totals(ledger, parent_category_id, kind, scope);
    let categories = ledger.categories();
    let mut children: Vec<CategoryTotal> = Vec::new();
    let mut i: usize = 0;
    while i < categories.len()
        invariant
            i <= categories.len(),
            categories@ == ledger@.categories,
            ledger.wf(),
            children@ == child_rows(ledger@, parent_category_id as int, kind, scope, i as int),
            rows_bounded(children@),
            children@.len() <= i,
        decreases categories.len() - i,
    {
        let is_child = match categories[i].parent_id {
            Some(p) => p == parent_category_id,
            None => false,
        };
        if is_child {
            let (amount, number) = direct_totals(ledger, categories[i].id, kind, scope);
            children.push(
                CategoryTotal {
                    category_id: categories[i].id,
                    total_amount: amount,
                    transaction_count: number,
                },
            );
        }
        i += 1;
    }
    let sorted = sort_by_amount(&children);
    proof {
        lemma_rows_bounded(children@, sorted@);
    }
    let has_children = sorted.len() > 0;
    let mut rows = sorted;
    let ghost sorted_rows = rows@;
    if has_children && direct_amount > 0 {
        rows.push(
            CategoryTotal {
                category_id: parent_category_id,
                total_amount: direct_amount,
                transaction_count: direct_number,
            },
        );
    }
    assert(rows_bounded(rows@)) by {
        assert forall|k: int| 0 <= k < rows@.len() implies 0 <= (#[trigger] rows@[k]).total_amount
            <= FLOW_LIMIT by {
            if k < sorted_rows.len() {
                assert(rows@[k] == sorted_rows[k]);
            }
        }
    }
    let whole = if has_children {
        sum_rows(&rows)
    } else {
        direct_amount
    };
    let mut items: Vec<SubcategoryItem> = Vec::new();
    let mut j: usize = 0;
    while j < rows.len()
        invariant
            j <= rows.len(),
            rows_bounded(rows@),
            0 <= whole <= REPORT_LIMIT,
            items@.len() == j,
            forall|k: int| 0 <= k < j ==> #[trigger] items@[k] == item_of(rows@[k], whole as int),
        decreases rows.len() - j,
    {
        let row = rows[j];
        items.push(
            SubcategoryItem {
                category_id: row.category_id,
                amount: row.total_amount,
                percentage: if whole > 0 {
                    round_div(row.total_amount * 10000, whole)
                } else {
                    0
                },
                transaction_count: row.transaction_count,
            },
        );
        j += 1;
    }
    proof {
        assert(children@.len() <= MAX_ROWS);
        assert(sorted_rows.to_multiset() == children@.to_multiset());
        assert(largest_first(sorted_rows));
        assert(sorted_rows.len() == children@.len());
        let own = CategoryTotal {
            category_id: parent_category_id,
            total_amount: direct_amount,
            transaction_count: direct_number,
        };
        assert(rows@ == breakdown_rows(sorted_rows, own));
        assert(breakdown_shown(
            ledger@,
            parent_category_id,
            scope,
            kind,
            sorted_rows,
            parent_category_id,
            whole,
            items@,
        ));
    }
    Ok(
        SubcategoryBreakdown {
            parent_category_id,
            total_amount: whole,
            subcategories: items,
        },
    )
}

/// Income and expense of the `n` days that end with `end_date`, the
/// latest day first, days without a transaction left out.
pub open spec fn daily_rows(postings: Seq<PostedTransaction>, end_date: Date, n: int) -> Seq<
    DailySummary,
>
    decreases n,
{
    if n <= 0 {
        Seq::empty()
    } else {
        let front = daily_rows(postings, end_date, n - 1);
        let day = day_back(end_date, n - 1);
        let scope = Scope::Between(day, day);
        if count_in(postings, scope) > 0 {
            front.push(
                DailySummary {
                    date: day,
                    total_income: kind_total(postings, TransactionType::Income, scope) as i128,
                    total_expense: kind_total(postings, TransactionType::Expense, scope) as i128,
                    net: (kind_total(postings, TransactionType::Income, scope) - kind_total(
                        postings,
                        TransactionType::Expense,
                        scope,
                    )) as i128,
                    transaction_count: count_in(postings, scope) as i64,
                },
            )
        } else {
            front
        }
    }
}

/// The day that lies `n` days before `end`; the first day of the calendar
/// where the calendar begins later.
pub open spec fn day_back(end: Date, n: int) -> Date
    decreases n,
{
    if n <= 0 {
        end
    } else {
        let after = day_back(end, n - 1);
        match pred_spec(after) {
            Some(d) => d,
            None => after,
        }
    }
}

/// Income and expense of every day from `start_date` to `end_date` on
/// which there was a transaction, the latest day first.
pub fn get_daily_summary(ledger: &Ledger, start_date: Date, end_date: Date) -> (r: Vec<
    DailySummary,
>)
    requires
        ledger.wf(),
        start_date.valid(),
        end_date.valid(),
    ensures
        r@ == daily_rows(ledger@.postings, end_date, span_days(start_date, end_date)),
{
    proof {
        lemma_day_number_order(start_date, end_date);
        crate::date::lemma_day_number_bounds(start_date);
        crate::date::lemma_day_number_bounds(end_date);
    }
    let total: u64 = if start_date.is_on_or_before(&end_date) {
        (end_date.days_since(&start_date) + 1) as u64
    } else {
        0
    };
    let mut out: Vec<DailySummary> = Vec::new();
    let mut day = end_date;
    let mut i: u64 = 0;
    while i < total
        invariant
            i <= total,
            total == span_days(start_date, end_date),
            ledger.wf(),
            day == day_back(end_date, i as int),
            day.valid(),
            out@ == daily_rows(ledger@.postings, end_date, i as int),
        decreases total - i,
    {
        let scope = Scope::Between(day, day);
        let (income, expense, count) = totals_by_kind(ledger, scope);
        if count > 0 {
            out.push(
                DailySummary {
                    date: day,
                    total_income: income,
                    total_expense: expense,
                    net: income - expense,
                    transaction_count: count,
                },
            );
        }
        proof {
            if pred_spec(day) is Some {
                lemma_pred_valid(day);
            }
        }
        day = match day.pred() {
            Some(d) => d,
            None => day,
        };
        i = i + 1;
    }
    out
}

} // verus!
