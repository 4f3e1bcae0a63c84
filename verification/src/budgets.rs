//! Budgets: the window that a budget covers, what was spent in it, and
//! how that compares with the amount of the budget.

use crate::balance::Scope;
use crate::date::{add_month, add_month_spec, add_year, add_year_spec, day_number, Date};
use crate::ledger::{
    category_with_id, has_category, lemma_category_index, posting_ok, Ledger, LedgerView,
};
use crate::model::{
    date_of_text, parse_date, same_text, Category, EngineError, PostedTransaction,
    TransactionType, MAX_AMOUNT, MAX_ID, MAX_ROWS,
};
use crate::money::{div_round, round_div};
use crate::sums::{lemma_prefix_sum_bounds, lemma_sum_take_all, lemma_sum_take_step, seq_sum};
use vstd::prelude::*;

verus! {

/// The largest sum that can be spent in a window.
pub const SPENDING_LIMIT: i128 = 1_000_000_000_000_000_000_000_000;

/// How often a budget renews.
#[derive(Clone, Copy, Debug, PartialEq, Eq, Structural)]
pub enum BudgetPeriod {
    Monthly,
    Yearly,
}

/// An amount to spend on a category in a period that begins on a date.
#[derive(Clone, Copy, Debug, PartialEq, Eq, Structural)]
pub struct Budget {
    pub id: i64,
    pub category_id: i64,
    pub amount: i64,
    pub period: BudgetPeriod,
    pub start_date: Date,
}

#[derive(Debug)]
pub struct CreateBudgetInput {
    pub category_id: i64,
    pub amount: i64,
    pub period: String,
    pub start_date: String,
}

#[derive(Debug)]
pub struct UpdateBudgetInput {
    pub id: i64,
    pub amount: Option<i64>,
    pub start_date: Option<String>,
}

/// How a budget stands on a day. The percentage is in hundredths of a
/// percent.
#[derive(Clone, Copy, Debug, PartialEq, Eq, Structural)]
pub struct BudgetStatus {
    pub budget: Budget,
    pub spent_amount: i128,
    pub remaining_amount: i128,
    pub percentage_used: i128,
    pub days_remaining: i64,
    pub daily_average_spent: i128,
    pub daily_budget_remaining: i128,
    pub is_over_budget: bool,
}

/// How far a budget is used up: from four fifths a warning, from the
/// whole a danger, from six fifths critical.
#[derive(Clone, Copy, Debug, PartialEq, Eq, Structural)]
pub enum AlertLevel {
    Warning,
    Danger,
    Critical,
}

/// A budget that is used up far enough to be pointed out.
#[derive(Clone, Copy, Debug, PartialEq, Eq, Structural)]
pub struct BudgetAlert {
    pub budget_id: i64,
    pub budget_amount: i64,
    pub spent_amount: i128,
    pub percentage_used: i128,
    pub alert_level: AlertLevel,
}

/// The period that a text names.
pub open spec fn period_of(text: Seq<char>) -> Option<BudgetPeriod> {
    if text == "MONTHLY"@ {
        Some(BudgetPeriod::Monthly)
    } else if text == "YEARLY"@ {
        Some(BudgetPeriod::Yearly)
    } else {
        None
    }
}

/// Reads the period of a budget: `MONTHLY` or `YEARLY`.
pub fn parse_period(text: &str) -> (r: Option<BudgetPeriod>)
    ensures
        r == period_of(text@),
{
    if same_text(text, "MONTHLY") {
        Some(BudgetPeriod::Monthly)
    } else if same_text(text, "YEARLY") {
        Some(BudgetPeriod::Yearly)
    } else {
        None
    }
}

/// The day on which the window of a budget ends, the day itself left out:
/// the day of the start a month or a year later, or the last day of that
/// month where it has no such day. `None` past the end of the calendar.
pub open spec fn window_end_spec(start: Date, period: BudgetPeriod) -> Option<Date> {
    match period {
        BudgetPeriod::Monthly => add_month_spec(start),
        BudgetPeriod::Yearly => add_year_spec(start),
    }
}

/// The day on which the window of a budget ends, the day itself left out.
pub fn window_end(start: Date, period: BudgetPeriod) -> (r: Option<Date>)
    requires
        start.valid(),
    ensures
        r == window_end_spec(start, period),
        r matches Some(end) ==> end.valid(),
{
    match period {
        BudgetPeriod::Monthly => add_month(start),
        BudgetPeriod::Yearly => add_year(start),
    }
}

/// A transaction of the category `c` counts for a budget on the category
/// `budget_category`: it is that category or a child of it.
pub open spec fn rolls_into(categories: Seq<Category>, c: int, budget_category: int) -> bool {
    c == budget_category || (has_category(categories, c) && category_with_id(
        categories,
        c,
    ).parent_id == Some(budget_category as i64))
}

/// What a posting adds to the spending on a category in a scope: the
/// amount of an expense on the category or on a child of it.
pub open spec fn spend_term(categories: Seq<Category>, category_id: int, scope: Scope) -> spec_fn(
    PostedTransaction,
) -> int {
    |p: PostedTransaction|
        if p.transaction.transaction_type is Expense && scope.holds(p.transaction.date)
            && p.transaction.category_id is Some && rolls_into(
            categories,
            p.transaction.category_id.unwrap() as int,
            category_id,
        ) {
            p.transaction.amount as int
        } else {
            0
        }
}

/// The expenses on a category and its children in a scope.
pub open spec fn spending(v: LedgerView, category_id: int, scope: Scope) -> int {
    seq_sum(v.postings, spend_term(v.categories, category_id, scope))
}

/// Whether a category is the given one or a child of it.
pub fn category_rolls_into(ledger: &Ledger, c: i64, budget_category: i64) -> (b: bool)
    requires
        ledger.wf(),
    ensures
        b == rolls_into(ledger@.categories, c as int, budget_category as int),
{
    if c == budget_category {
        return true;
    }
    match ledger.find_category(c) {
        None => false,
        Some(k) => {
            proof {
                lemma_category_index(ledger@.categories, k as int);
            }
            match ledger.categories()[k].parent_id {
                Some(p) => p == budget_category,
                None => false,
            }
        },
    }
}

/// The expenses on a category and its children in a scope.
pub fn sum_spending(ledger: &Ledger, category_id: i64, scope: Scope) -> (r: i128)
    requires
        ledger.wf(),
    ensures
        r == spending(ledger@, category_id as int, scope),
        0 <= r <= SPENDING_LIMIT,
{
    let postings = ledger.postings();
    let ghost f = spend_term(ledger@.categories, category_id as int, scope);
    let mut sum: i128 = 0;
    let mut i: usize = 0;
    while i < postings.len()
        invariant
            i <= postings.len(),
            postings@ == ledger@.postings,
            ledger.wf(),
            f == spend_term(ledger@.categories, category_id as int, scope),
            sum == seq_sum(postings@.take(i as int), f),
            0 <= sum <= SPENDING_LIMIT,
        decreases postings.len() - i,
    {
        let t = &postings[i].transaction;
        proof {
            lemma_sum_take_step(postings@, i as int, f);
            assert forall|k: int| 0 <= k < postings@.len() implies 0 <= f(#[trigger] postings@[k])
                <= MAX_AMOUNT by {
                assert(posting_ok(postings@[k]));
            }
            lemma_prefix_sum_bounds(
                postings@,
                i + 1,
                f,
                0,
                MAX_AMOUNT as int,
                MAX_ROWS as int,
            );
        }
        let is_expense = match t.transaction_type {
            TransactionType::Expense => true,
            _ => false,
        };
        if is_expense && scope.contains(&t.date) {
            match t.category_id {
                Some(c) => {
                    if category_rolls_into(ledger, c, category_id) {
                        sum = sum + t.amount as i128;
                    }
                },
                None => {},
            }
        }
        i += 1;
    }
    proof {
        lemma_sum_take_all(postings@, f);
    }
    sum
}

/// How far a budget of `amount` is used up when `spent` is spent.
pub open spec fn alert_level_spec(spent: int, amount: int) -> Option<AlertLevel> {
    if amount <= 0 {
        None
    } else if spent * 100 >= amount * 120 {
        Some(AlertLevel::Critical)
    } else if spent * 100 >= amount * 100 {
        Some(AlertLevel::Danger)
    } else if spent * 100 >= amount * 80 {
        Some(AlertLevel::Warning)
    } else {
        None
    }
}

pub open spec fn at_least(x: int, floor: int) -> int {
    if x > floor {
        x
    } else {
        floor
    }
}

/// How a budget stands on a day:
/// - the window runs from the start of the budget to its end, the end
///   left out;
/// - what is spent are the expenses in the window on the category of the
///   budget and on its children;
/// - the percentage is what is spent as a share of the amount, in
///   hundredths of a percent;
/// - the days that remain are those from the day to the end of the window,
///   none after it, and the days that have passed are those since the
///   start, at least one;
/// - the daily average is what is spent by the days that have passed, and
///   the daily budget what remains by the days that remain.
/// A budget whose category is missing, or whose window ends past the
/// calendar, has no status.
pub open spec fn budget_status(v: LedgerView, budget: Budget, today: Date) -> Result<
    BudgetStatus,
    EngineError,
> {
    if !has_category(v.categories, budget.category_id as int) {
        Err(EngineError::BudgetNotFound)
    } else {
        match window_end_spec(budget.start_date, budget.period) {
            None => Err(EngineError::DateOutOfRange),
            Some(end) => {
                let spent = spending(
                    v,
                    budget.category_id as int,
                    Scope::Window(budget.start_date, end),
                );
                let remaining = budget.amount - spent;
                let days_remaining = at_least(day_number(end) - day_number(today), 0);
                let days_elapsed = at_least(day_number(today) - day_number(budget.start_date), 1);
                Ok(
                    BudgetStatus {
                        budget,
                        spent_amount: spent as i128,
                        remaining_amount: remaining as i128,
                        percentage_used: if budget.amount > 0 {
                            div_round(spent * 10000, budget.amount as int) as i128
                        } else {
                            0
                        },
                        days_remaining: days_remaining as i64,
                        daily_average_spent: div_round(spent, days_elapsed) as i128,
                        daily_budget_remaining: if days_remaining > 0 {
                            div_round(remaining, days_remaining) as i128
                        } else {
                            0
                        },
                        is_over_budget: spent > budget.amount,
                    },
                )
            },
        }
    }
}

/// How a budget stands on a day.
pub fn status_of(ledger: &Ledger, budget: Budget, today: Date) -> (r: Result<
    BudgetStatus,
    EngineError,
>)
    requires
        ledger.wf(),
        today.valid(),
        budget.start_date.valid(),
        0 <= budget.amount <= MAX_AMOUNT,
    ensures
        r == budget_status(ledger@, budget, today),
        r matches Ok(s) ==> 0 <= s.spent_amount <= SPENDING_LIMIT && s.budget == budget,
{
    if ledger.find_category(budget.category_id).is_none() {
        return Err(EngineError::BudgetNotFound);
    }
    let end = match window_end(budget.start_date, budget.period) {
        Some(end) => end,
        None => {
            return Err(EngineError::DateOutOfRange);
        },
    };
    let left = end.days_since(&today);
    let days_remaining = if left > 0 {
        left
    } else {
        0
    };
    let passed = today.days_since(&budget.start_date);
    let days_elapsed = if passed > 1 {
        passed
    } else {
        1
    };
    let spent = sum_spending(ledger, budget.category_id, Scope::Window(budget.start_date, end));
    let remaining = budget.amount as i128 - spent;
    let percentage_used = if budget.amount > 0 {
        round_div(spent * 10000, budget.amount as i128)
    } else {
        0
    };
    let daily_average_spent = round_div(spent, days_elapsed as i128);
    let daily_budget_remaining = if days_remaining > 0 {
        round_div(remaining, days_remaining as i128)
    } else {
        0
    };
    Ok(
        BudgetStatus {
            budget,
            spent_amount: spent,
            remaining_amount: remaining,
            percentage_used,
            days_remaining,
            daily_average_spent,
            daily_budget_remaining,
            is_over_budget: spent > budget.amount as i128,
        },
    )
}

/// How far a budget is used up, if far enough to be pointed out.
pub fn alert_level(status: &BudgetStatus) -> (r: Option<AlertLevel>)
    requires
        0 <= status.spent_amount <= SPENDING_LIMIT,
        0 <= status.budget.amount <= MAX_AMOUNT,
    ensures
        r == alert_level_spec(status.spent_amount as int, status.budget.amount as int),
{
    let spent = status.spent_amount * 100;
    let amount = status.budget.amount as i128;
    if amount <= 0 {
        None
    } else if spent >= amount * 120 {
        Some(AlertLevel::Critical)
    } else if spent >= amount * 100 {
        Some(AlertLevel::Danger)
    } else if spent >= amount * 80 {
        Some(AlertLevel::Warning)
    } else {
        None
    }
}

/// The budgets as a mathematical value.
pub struct BudgetBookView {
    pub budgets: Seq<Budget>,
    pub next_id: int,
}

/// The rules that a budget meets.
pub open spec fn budget_ok(b: Budget) -> bool {
    1 <= b.id <= MAX_ID && 0 < b.amount <= MAX_AMOUNT && b.start_date.valid()
}

/// Why a budget is not taken back into the book; `None` for one that is.
pub open spec fn budget_restore_error(v: BudgetBookView, b: Budget) -> Option<EngineError> {
    if !budget_ok(b) {
        Some(EngineError::InvalidRecord)
    } else if has_budget(v.budgets, b.id as int) {
        Some(EngineError::DuplicateId)
    } else if v.budgets.len() >= MAX_ROWS {
        Some(EngineError::CapacityExceeded)
    } else {
        None
    }
}

pub open spec fn has_budget(budgets: Seq<Budget>, id: int) -> bool {
    exists|i: int| 0 <= i < budgets.len() && (#[trigger] budgets[i]).id == id
}

/// The place of the budget with the given identifier.
pub open spec fn budget_index(budgets: Seq<Budget>, id: int) -> int {
    choose|i: int| 0 <= i < budgets.len() && (#[trigger] budgets[i]).id == id
}

/// A budget is stored for the category, the period and the start.
pub open spec fn budget_stored(
    budgets: Seq<Budget>,
    category_id: int,
    period: BudgetPeriod,
    start: Date,
) -> bool {
    exists|i: int|
        0 <= i < budgets.len() && (#[trigger] budgets[i]).category_id == category_id
            && budgets[i].period == period && budgets[i].start_date == start
}

impl BudgetBookView {
    pub open spec fn wf(self) -> bool {
        &&& self.budgets.len() <= MAX_ROWS
        &&& 1 <= self.next_id <= MAX_ID + 1
        &&& forall|i: int|
            0 <= i < self.budgets.len() ==> budget_ok(#[trigger] self.budgets[i])
                && self.budgets[i].id < self.next_id
        &&& forall|i: int, j: int|
            0 <= i < j < self.budgets.len() ==> (#[trigger] self.budgets[i]).id != (
            #[trigger] self.budgets[j]).id
    }
}

/// Among the budgets of a well-formed book, the place of an identifier is
/// the only place that holds it.
pub proof fn lemma_budget_index(v: BudgetBookView, k: int)
    requires
        v.wf(),
        0 <= k < v.budgets.len(),
    ensures
        budget_index(v.budgets, v.budgets[k].id as int) == k,
{
    let id = v.budgets[k].id as int;
    let i = budget_index(v.budgets, id);
    assert(0 <= i < v.budgets.len() && v.budgets[i].id == id);
    if i < k {
        assert(v.budgets[i].id != v.budgets[k].id);
    } else if k < i {
        assert(v.budgets[k].id != v.budgets[i].id);
    }
}

/// Why a budget is not created; `None` where it is.
pub open spec fn create_budget_error(book: BudgetBookView, ledger: LedgerView, input:
    CreateBudgetInput) -> Option<EngineError> {
    if period_of(input.period@) is None {
        Some(EngineError::InvalidPeriod)
    } else if input.amount <= 0 {
        Some(EngineError::NonPositiveAmount)
    } else if input.amount > MAX_AMOUNT {
        Some(EngineError::AmountOutOfRange)
    } else if !has_category(ledger.categories, input.category_id as int) {
        Some(EngineError::CategoryNotFound)
    } else if date_of_text(input.start_date@) is None {
        Some(EngineError::MalformedDate)
    } else if budget_stored(
        book.budgets,
        input.category_id as int,
        period_of(input.period@).unwrap(),
        date_of_text(input.start_date@).unwrap(),
    ) {
        Some(EngineError::DuplicateBudget)
    } else if book.budgets.len() >= MAX_ROWS || book.next_id > MAX_ID {
        Some(EngineError::CapacityExceeded)
    } else {
        None
    }
}

/// The budget that a request creates under an identifier.
pub open spec fn budget_from(id: int, input: CreateBudgetInput) -> Budget {
    Budget {
        id: id as i64,
        category_id: input.category_id,
        amount: input.amount,
        period: period_of(input.period@).unwrap(),
        start_date: date_of_text(input.start_date@).unwrap(),
    }
}

/// The start that a request to change a budget carries, if any.
pub open spec fn requested_start(input: UpdateBudgetInput) -> Option<Date> {
    match input.start_date {
        Some(text) => date_of_text(text@),
        None => None,
    }
}

/// Why a budget is not changed; `None` where it is.
pub open spec fn update_budget_error(book: BudgetBookView, input: UpdateBudgetInput) -> Option<
    EngineError,
> {
    if !has_budget(book.budgets, input.id as int) {
        Some(EngineError::BudgetNotFound)
    } else if input.amount is Some && input.amount.unwrap() <= 0 {
        Some(EngineError::NonPositiveAmount)
    } else if input.amount is Some && input.amount.unwrap() > MAX_AMOUNT {
        Some(EngineError::AmountOutOfRange)
    } else if input.start_date is Some && requested_start(input) is None {
        Some(EngineError::MalformedDate)
    } else if input.amount is None && input.start_date is None {
        Some(EngineError::NothingToUpdate)
    } else {
        None
    }
}

/// The budget `b` with the amount and the start replaced that the request
/// gives.
pub open spec fn amended_budget(b: Budget, input: UpdateBudgetInput) -> Budget {
    Budget {
        id: b.id,
        category_id: b.category_id,
        amount: match input.amount {
            Some(a) => a,
            None => b.amount,
        },
        period: b.period,
        start_date: match requested_start(input) {
            Some(d) => d,
            None => b.start_date,
        },
    }
}

/// The statuses of the first `n` budgets, those left out that have none.
pub open spec fn statuses_of(budgets: Seq<Budget>, v: LedgerView, today: Date, n: int) -> Seq<
    BudgetStatus,
>
    decreases n,
{
    if n <= 0 {
        Seq::empty()
    } else {
        let front = statuses_of(budgets, v, today, n - 1);
        match budget_status(v, budgets[n - 1], today) {
            Ok(s) => front.push(s),
            Err(_) => front,
        }
    }
}

/// The alert for a status, if the budget is used up far enough.
pub open spec fn alert_of(s: BudgetStatus) -> Option<BudgetAlert> {
    match alert_level_spec(s.spent_amount as int, s.budget.amount as int) {
        Some(level) => Some(
            BudgetAlert {
                budget_id: s.budget.id,
                budget_amount: s.budget.amount,
                spent_amount: s.spent_amount,
                percentage_used: s.percentage_used,
                alert_level: level,
            },
        ),
        None => None,
    }
}

/// The alerts for the first `n` statuses.
pub open spec fn alerts_of(statuses: Seq<BudgetStatus>, n: int) -> Seq<BudgetAlert>
    decreases n,
{
    if n <= 0 {
        Seq::empty()
    } else {
        let front = alerts_of(statuses, n - 1);
        match alert_of(statuses[n - 1]) {
            Some(a) => front.push(a),
            None => front,
        }
    }
}

/// The budgets.
pub struct BudgetBook {
    budgets: Vec<Budget>,
    next_id: i64,
}

impl View for BudgetBook {
    type V = BudgetBookView;

    closed spec fn view(&self) -> BudgetBookView {
        BudgetBookView { budgets: self.budgets@, next_id: self.next_id as int }
    }
}

impl BudgetBook {
    pub open spec fn wf(&self) -> bool {
        self@.wf()
    }

    /// A book without budgets.
    pub fn new() -> (r: BudgetBook)
        ensures
            r.wf(),
            r@.budgets.len() == 0,
            r@.next_id == 1,
    {
        BudgetBook { budgets: Vec::new(), next_id: 1 }
    }

    pub fn get_budgets(&self) -> (r: &Vec<Budget>)
        ensures
            r@ == self@.budgets,
    {
        &self.budgets
    }

    /// The place of the budget with the given identifier.
    pub fn find_budget(&self, id: i64) -> (r: Option<usize>)
        ensures
            match r {
                Some(i) => i < self@.budgets.len() && self@.budgets[i as int].id == id,
                None => !has_budget(self@.budgets, id as int),
            },
    {
        let mut i: usize = 0;
        while i < self.budgets.len()
            invariant
                i <= self.budgets.len(),
                forall|k: int| 0 <= k < i ==> (#[trigger] self.budgets@[k]).id != id,
            decreases self.budgets.len() - i,
        {
            if self.budgets[i].id == id {
                return Some(i);
            }
            i += 1;
        }
        None
    }

    /// Whether a budget is stored for the category, the period and the
    /// start.
    pub fn is_budget_stored(&self, category_id: i64, period: BudgetPeriod, start: Date) -> (b:
        bool)
        ensures
            b == budget_stored(self@.budgets, category_id as int, period, start),
    {
        let mut i: usize = 0;
        while i < self.budgets.len()
            invariant
                i <= self.budgets.len(),
                forall|k: int|
                    0 <= k < i ==> !((#[trigger] self.budgets@[k]).category_id == category_id
                        && self.budgets@[k].period == period && self.budgets@[k].start_date
                        == start),
            decreases self.budgets.len() - i,
        {
            let b = &self.budgets[i];
            if b.category_id == category_id && b.period == period && b.start_date == start {
                return true;
            }
            i += 1;
        }
        false
    }

    /// Creates a budget for a category. Gives the new identifier.
    pub fn create_budget(&mut self, ledger: &Ledger, input: CreateBudgetInput) -> (r: Result<
        i64,
        EngineError,
    >)
        requires
            old(self).wf(),
        ensures
            final(self).wf(),
            match r {
                Ok(id) => create_budget_error(old(self)@, ledger@, input) is None
                    && id == old(self)@.next_id
                    && final(self)@ == (BudgetBookView {
                    budgets: old(self)@.budgets.push(budget_from(id as int, input)),
                    next_id: id + 1,
                }),
                Err(e) => create_budget_error(old(self)@, ledger@, input) == Some(e)
                    && final(self)@ == old(self)@,
            },
    {
        let period = match parse_period(input.period.as_str()) {
            Some(p) => p,
            None => {
                return Err(EngineError::InvalidPeriod);
            },
        };
        if input.amount <= 0 {
            return Err(EngineError::NonPositiveAmount);
        }
        if input.amount > MAX_AMOUNT {
            return Err(EngineError::AmountOutOfRange);
        }
        if ledger.find_category(input.category_id).is_none() {
            return Err(EngineError::CategoryNotFound);
        }
        let start = match parse_date(input.start_date.as_str()) {
            Ok(d) => d,
            Err(e) => {
                return Err(e);
            },
        };
        if self.is_budget_stored(input.category_id, period, start) {
            return Err(EngineError::DuplicateBudget);
        }
        if self.budgets.len() >= MAX_ROWS || self.next_id > MAX_ID {
            return Err(EngineError::CapacityExceeded);
        }
        let id = self.next_id;
        let ghost before = self@;
        self.budgets.push(
            Budget {
                id,
                category_id: input.category_id,
                amount: input.amount,
                period,
                start_date: start,
            },
        );
        self.next_id = id + 1;
        proof {
            let after = self@;
            assert forall|i: int, j: int| 0 <= i < j < after.budgets.len() implies (
            #[trigger] after.budgets[i]).id != (#[trigger] after.budgets[j]).id by {
                assert(after.budgets[i] == before.budgets[i]);
                if j < before.budgets.len() {
                    assert(after.budgets[j] == before.budgets[j]);
                }
            }
        }
        Ok(id)
    }

    /// Changes the amount or the start of a budget.
    pub fn update_budget(&mut self, input: UpdateBudgetInput) -> (r: Result<(), EngineError>)
        requires
            old(self).wf(),
        ensures
            final(self).wf(),
            match r {
                Ok(_) => update_budget_error(old(self)@, input) is None && final(self)@ == (
                BudgetBookView {
                    budgets: old(self)@.budgets.update(
                        budget_index(old(self)@.budgets, input.id as int),
                        amended_budget(
                            old(self)@.budgets[budget_index(old(self)@.budgets, input.id as int)],
                            input,
                        ),
                    ),
                    ..old(self)@
                }),
                Err(e) => update_budget_error(old(self)@, input) == Some(e) && final(self)@ == old(self)@,
            },
    {
        let k = match self.find_budget(input.id) {
            Some(k) => k,
            None => {
                return Err(EngineError::BudgetNotFound);
            },
        };
        proof {
            lemma_budget_index(self@, k as int);
        }
        let mut budget = self.budgets[k];
        match input.amount {
            Some(a) => {
                if a <= 0 {
                    return Err(EngineError::NonPositiveAmount);
                }
                if a > MAX_AMOUNT {
                    return Err(EngineError::AmountOutOfRange);
                }
                budget.amount = a;
            },
            None => {},
        }
        match &input.start_date {
            Some(text) => match parse_date(text.as_str()) {
                Ok(d) => {
                    budget.start_date = d;
                },
                Err(e) => {
                    return Err(e);
                },
            },
            None => {},
        }
        if input.amount.is_none() && input.start_date.is_none() {
            return Err(EngineError::NothingToUpdate);
        }
        let ghost before = self@;
        self.budgets.set(k, budget);
        proof {
            let after = self@;
            assert(after.budgets =~= before.budgets.update(k as int, budget));
            assert forall|i: int| 0 <= i < after.budgets.len() implies (
            #[trigger] after.budgets[i]).id == before.budgets[i].id by {}
        }
        Ok(())
    }

    /// Deletes a budget.
    pub fn delete_budget(&mut self, budget_id: i64) -> (r: Result<(), EngineError>)
        requires
            old(self).wf(),
        ensures
            final(self).wf(),
            match r {
                Ok(_) => has_budget(old(self)@.budgets, budget_id as int) && final(self)@ == (
                BudgetBookView {
                    budgets: old(self)@.budgets.remove(
                        budget_index(old(self)@.budgets, budget_id as int),
                    ),
                    ..old(self)@
                }),
                Err(e) => e == EngineError::BudgetNotFound && !has_budget(
                    old(self)@.budgets,
                    budget_id as int,
                ) && final(self)@ == old(self)@,
            },
    {
        let k = match self.find_budget(budget_id) {
            Some(k) => k,
            None => {
                return Err(EngineError::BudgetNotFound);
            },
        };
        proof {
            lemma_budget_index(self@, k as int);
        }
        let ghost before = self@;
        self.budgets.remove(k);
        proof {
            let after = self@;
            assert forall|i: int| 0 <= i < after.budgets.len() implies (
            #[trigger] after.budgets[i]) == before.budgets[if i < k {
                i
            } else {
                i + 1
            }] by {}
            assert forall|i: int, j: int| 0 <= i < j < after.budgets.len() implies (
            #[trigger] after.budgets[i]).id != (#[trigger] after.budgets[j]).id by {
                let i0 = if i < k {
                    i
                } else {
                    i + 1
                };
                let j0 = if j < k {
                    j
                } else {
                    j + 1
                };
                assert(after.budgets[i] == before.budgets[i0]);
                assert(after.budgets[j] == before.budgets[j0]);
            }
        }
        Ok(())
    }

    /// Takes a budget back into the book under the identifier that it had.
    #[verifier::loop_isolation(false)]
    pub fn restore_budget(&mut self, budget: Budget) -> (r: Result<(), EngineError>)
        requires
            old(self).wf(),
        ensures
            final(self).wf(),
            match r {
                Ok(_) => budget_restore_error(old(self)@, budget) is None && final(self)@.budgets
                    == old(self)@.budgets.push(budget) && final(self)@.next_id == (if budget.id + 1
                    > old(self)@.next_id {
                    budget.id + 1
                } else {
                    old(self)@.next_id
                }),
                Err(e) => budget_restore_error(old(self)@, budget) == Some(e) && final(self)@
                    == old(self)@,
            },
    {
        if budget.id < 1 || budget.id > MAX_ID || budget.amount <= 0 || budget.amount
            > MAX_AMOUNT || !budget.start_date.is_valid() {
            return Err(EngineError::InvalidRecord);
        }
        if self.find_budget(budget.id).is_some() {
            return Err(EngineError::DuplicateId);
        }
        if self.budgets.len() >= MAX_ROWS {
            return Err(EngineError::CapacityExceeded);
        }
        let ghost before = self@;
        self.budgets.push(budget);
        if budget.id >= self.next_id {
            self.next_id = budget.id + 1;
        }
        proof {
            let after = self@;
            assert forall|i: int, j: int| 0 <= i < j < after.budgets.len() implies (
            #[trigger] after.budgets[i]).id != (#[trigger] after.budgets[j]).id by {
                assert(after.budgets[i] == before.budgets[i]);
                if j < before.budgets.len() {
                    assert(after.budgets[j] == before.budgets[j]);
                }
            }
        }
        Ok(())
    }

    /// How the budget with the given identifier stands on a day.
    pub fn get_budget_status(&self, ledger: &Ledger, budget_id: i64, today: Date) -> (r: Result<
        BudgetStatus,
        EngineError,
    >)
        requires
            self.wf(),
            ledger.wf(),
            today.valid(),
        ensures
            r == (if has_budget(self@.budgets, budget_id as int) {
                budget_status(
                    ledger@,
                    self@.budgets[budget_index(self@.budgets, budget_id as int)],
                    today,
                )
            } else {
                Err(EngineError::BudgetNotFound)
            }),
    {
        match self.find_budget(budget_id) {
            None => Err(EngineError::BudgetNotFound),
            Some(k) => {
                proof {
                    lemma_budget_index(self@, k as int);
                }
                status_of(ledger, self.budgets[k], today)
            },
        }
    }

    /// How every budget stands on a day, in the order of the book. A
    /// budget that has no status is left out and does not fail the others.
    pub fn get_all_budget_statuses(&self, ledger: &Ledger, today: Date) -> (r: Vec<BudgetStatus>)
        requires
            self.wf(),
            ledger.wf(),
            today.valid(),
        ensures
            r@ == statuses_of(self@.budgets, ledger@, today, self@.budgets.len() as int),
            forall|i: int|
                0 <= i < r@.len() ==> 0 <= (#[trigger] r@[i]).spent_amount <= SPENDING_LIMIT && 0
                    <= r@[i].budget.amount <= MAX_AMOUNT,
    {
        let mut out: Vec<BudgetStatus> = Vec::new();
        let mut i: usize = 0;
        while i < self.budgets.len()
            invariant
                i <= self.budgets.len(),
                self.wf(),
                ledger.wf(),
                today.valid(),
                out@ == statuses_of(self@.budgets, ledger@, today, i as int),
                forall|j: int|
                    0 <= j < out@.len() ==> 0 <= (#[trigger] out@[j]).spent_amount
                        <= SPENDING_LIMIT && 0 <= out@[j].budget.amount <= MAX_AMOUNT,
            decreases self.budgets.len() - i,
        {
            let budget = self.budgets[i];
            assert(budget_ok(budget));
            match status_of(ledger, budget, today) {
                Ok(status) => {
                    out.push(status);
                },
                Err(_) => {},
            }
            i += 1;
        }
        out
    }

    /// The budgets that are used up to four fifths or more on a day.
    pub fn get_budget_alerts(&self, ledger: &Ledger, today: Date) -> (r: Vec<BudgetAlert>)
        requires
            self.wf(),
            ledger.wf(),
            today.valid(),
        ensures
            r@ == alerts_of(
                statuses_of(self@.budgets, ledger@, today, self@.budgets.len() as int),
                statuses_of(self@.budgets, ledger@, today, self@.budgets.len() as int).len() as int,
            ),
    {
        let statuses = self.get_all_budget_statuses(ledger, today);
        let mut out: Vec<BudgetAlert> = Vec::new();
        let mut i: usize = 0;
        while i < statuses.len()
            invariant
                i <= statuses.len(),
                out@ == alerts_of(statuses@, i as int),
                forall|j: int|
                    0 <= j < statuses@.len() ==> 0 <= (#[trigger] statuses@[j]).spent_amount
                        <= SPENDING_LIMIT && 0 <= statuses@[j].budget.amount <= MAX_AMOUNT,
            decreases statuses.len() - i,
        {
            let status = &statuses[i];
            match alert_level(status) {
                Some(level) => {
                    out.push(
                        BudgetAlert {
                            budget_id: status.budget.id,
                            budget_amount: status.budget.amount,
                            spent_amount: status.spent_amount,
                            percentage_used: status.percentage_used,
                            alert_level: level,
                        },
                    );
                },
                None => {},
            }
            i += 1;
        }
        out
    }
}

} // verus!
