//! The billing of credit cards: billing cycles anchored to a day of the
//! month, statements that close a cycle, and payments that are applied to
//! the open statements, the one that is due first before the others.

use crate::balance::{balance_at, balance_of, Scope, BALANCE_LIMIT};
use crate::date::{
    date_le, date_lt, make_date, make_date_spec, next_month_spec, prev_month_spec, succ_spec,
    day_number, Date, MAX_YEAR, MIN_YEAR,
};
use crate::ledger::{
    account_with_id, draft_error, has_account, lemma_account_index, posted_as, posting_ok,
    Ledger, LedgerView, TransactionDraft,
};
use crate::model::{
    Account, AccountType, EngineError, PostedTransaction, Transaction, TransactionType,
    MAX_AMOUNT, MAX_ID, MAX_ROWS,
};
use crate::money::{div_round, liability_magnitude_spec, round_div};
use crate::text::{number_text, push_number};
use crate::transactions::{
    account_transactions, get_account_transactions, get_account_transactions_by_date, listed,
    listed_by_date,
};
use crate::sums::{
    lemma_prefix_sum_bounds, lemma_sum_add, lemma_sum_pairwise_eq, lemma_sum_pairwise_le,
    lemma_sum_take_all, lemma_sum_take_step, lemma_sum_update, seq_sum,
};
use vstd::prelude::*;

verus! {

/// The largest sum of charges or of payments of one account.
pub const VOLUME_LIMIT: i128 = 1_000_000_000_000_000_000_000_000;

/// The largest magnitude of a balance that a statement holds.
pub const STATEMENT_LIMIT: i128 = 1_000_000_000_000_000_000_000_000_000_000;

/// How a credit card is billed.
#[derive(Clone, Copy, Debug, PartialEq, Eq, Structural)]
pub struct CreditCardSettings {
    pub id: i64,
    /// The liability account of the card.
    pub account_id: i64,
    pub credit_limit: i64,
    /// The day of the month on which a cycle ends, 1 to 28.
    pub statement_day: u32,
    /// The day of the following month on which payment is due, 1 to 28.
    pub payment_due_day: u32,
    /// The minimum payment in hundredths of a percent of the closing
    /// balance.
    pub minimum_payment_percentage: u32,
    pub auto_settlement_enabled: bool,
    /// The asset account that pays the card by itself.
    pub settlement_account_id: Option<i64>,
}

#[derive(Clone, Copy, Debug, PartialEq, Eq, Structural)]
pub struct CreateCreditCardSettingsInput {
    pub account_id: i64,
    pub credit_limit: i64,
    pub statement_day: i32,
    pub payment_due_day: i32,
    pub minimum_payment_percentage: Option<u32>,
    pub auto_settlement_enabled: Option<bool>,
    pub settlement_account_id: Option<i64>,
}

#[derive(Clone, Copy, Debug, PartialEq, Eq, Structural)]
pub struct UpdateCreditCardSettingsInput {
    pub id: i64,
    pub credit_limit: Option<i64>,
    pub statement_day: Option<i32>,
    pub payment_due_day: Option<i32>,
    pub minimum_payment_percentage: Option<u32>,
    pub auto_settlement_enabled: Option<bool>,
    pub settlement_account_id: Option<i64>,
}

/// Where a statement stands: open while its cycle runs, closed when it is
/// generated, partial once a payment has reached it, paid once it is paid
/// in full.
#[derive(Clone, Copy, Debug, PartialEq, Eq, Structural)]
pub enum StatementStatus {
    Open,
    Closed,
    Partial,
    Paid,
}

/// The summary of one billing cycle.
#[derive(Clone, Copy, Debug, PartialEq, Eq, Structural)]
pub struct CreditCardStatement {
    pub id: i64,
    pub credit_card_id: i64,
    pub statement_date: Date,
    pub due_date: Date,
    pub cycle_start_date: Date,
    pub cycle_end_date: Date,
    pub opening_balance: i128,
    pub total_charges: i128,
    pub total_payments: i128,
    pub closing_balance: i128,
    pub minimum_payment: i128,
    pub status: StatementStatus,
    pub paid_amount: i128,
    pub paid_date: Option<Date>,
}

/// What is asked of a settlement: the card, the account that pays, the
/// amount (the whole balance where none is given) and the date (today
/// where none is given).
#[derive(Clone, Copy, Debug, PartialEq, Eq, Structural)]
pub struct SettlementInput {
    pub credit_card_settings_id: i64,
    pub payment_account_id: i64,
    pub amount: Option<i64>,
    pub date: Option<Date>,
}

/// The running billing cycle of a card.
#[derive(Clone, Copy, Debug, PartialEq, Eq, Structural)]
pub struct BillingCycleInfo {
    pub cycle_start_date: Date,
    pub cycle_end_date: Date,
    pub due_date: Date,
    pub days_remaining: i64,
}

/// The figures of a card. The utilization is in hundredths of a percent.
#[derive(Clone, Copy, Debug, PartialEq, Eq, Structural)]
pub struct CardBalances {
    pub total_balance: i128,
    pub outstanding_balance: i128,
    pub available_credit: i128,
    pub current_cycle_charges: i128,
    pub current_cycle_payments: i128,
    pub utilization_percentage: i128,
}

/// A card with its figures.
#[derive(Clone, Copy, Debug, PartialEq, Eq, Structural)]
pub struct CreditCardWithDetails {
    pub settings: CreditCardSettings,
    pub balances: CardBalances,
}

/// A card as the dashboard shows it.
#[derive(Clone, Copy, Debug, PartialEq, Eq, Structural)]
pub struct CreditCardSummary {
    pub account_id: i64,
    pub total_balance: i128,
    pub credit_limit: i64,
    pub available_credit: i128,
    pub next_due_date: Option<Date>,
    pub next_due_amount: Option<i128>,
    pub utilization_percentage: i128,
}

/// The day after `d`, or `fallback` on the last day of the calendar.
pub open spec fn day_after(d: Date, fallback: Date) -> Date {
    match succ_spec(d) {
        Some(next) => next,
        None => fallback,
    }
}

/// The billing cycle that `today` lies in, for a statement day `day`.
/// Up to the statement day the cycle ends on that day of this month and
/// began the day after that day of the month before; after it the cycle
/// began the day after that day of this month and ends on that day of the
/// next month. A month that has no such day takes its 28th.
pub open spec fn cycle_spec(today: Date, day: u32) -> (Date, Date) {
    let y = today.year as int;
    let m = today.month as int;
    if today.day <= day {
        let (py, pm) = prev_month_spec(y, m);
        (
            if py >= MIN_YEAR {
                day_after(make_date_spec(py, pm, day as int), today)
            } else {
                today
            },
            make_date_spec(y, m, day as int),
        )
    } else {
        let (ny, nm) = next_month_spec(y, m);
        (
            day_after(make_date_spec(y, m, day as int), today),
            if ny <= MAX_YEAR {
                make_date_spec(ny, nm, day as int)
            } else {
                today
            },
        )
    }
}

/// The day on which a statement is due: the due day of the month after
/// the statement's date; the 28th where that month has no such day.
pub open spec fn due_date_spec(statement_date: Date, due_day: u32) -> Date {
    let (ny, nm) = next_month_spec(statement_date.year as int, statement_date.month as int);
    if ny <= MAX_YEAR {
        make_date_spec(ny, nm, due_day as int)
    } else {
        statement_date
    }
}

/// The billing cycle that `today` lies in.
pub fn compute_current_cycle_dates(today: Date, statement_day: u32) -> (r: (Date, Date))
    requires
        today.valid(),
    ensures
        r == cycle_spec(today, statement_day),
        r.0.valid(),
        r.1.valid(),
        1 <= statement_day <= 28 ==> date_le(r.0, today) && date_le(today, r.1) && date_le(
            r.0,
            r.1,
        ),
{
    if today.day <= statement_day {
        let cycle_end = make_date(today.year, today.month, statement_day);
        let cycle_start = if today.month == 1 {
            if today.year <= MIN_YEAR {
                today
            } else {
                match make_date(today.year - 1, 12, statement_day).succ() {
                    Some(d) => d,
                    None => today,
                }
            }
        } else {
            match make_date(today.year, today.month - 1, statement_day).succ() {
                Some(d) => d,
                None => today,
            }
        };
        (cycle_start, cycle_end)
    } else {
        let cycle_start = match make_date(today.year, today.month, statement_day).succ() {
            Some(d) => d,
            None => today,
        };
        let cycle_end = if today.month == 12 {
            if today.year >= MAX_YEAR {
                today
            } else {
                make_date(today.year + 1, 1, statement_day)
            }
        } else {
            make_date(today.year, today.month + 1, statement_day)
        };
        (cycle_start, cycle_end)
    }
}

/// The day on which the statement of a cycle that ends on
/// `statement_date` is due.
pub fn compute_due_date(statement_date: Date, payment_due_day: u32) -> (r: Date)
    requires
        statement_date.valid(),
    ensures
        r == due_date_spec(statement_date, payment_due_day),
        r.valid(),
        date_le(statement_date, r),
{
    if statement_date.month == 12 {
        if statement_date.year >= MAX_YEAR {
            statement_date
        } else {
            make_date(statement_date.year + 1, 1, payment_due_day)
        }
    } else {
        make_date(statement_date.year, statement_date.month + 1, payment_due_day)
    }
}

/// What a posting adds to the charges of a card in a scope: the amount of
/// an expense on the card's account.
pub open spec fn charge_term(account_id: int, scope: Scope) -> spec_fn(PostedTransaction) -> int {
    |p: PostedTransaction|
        if p.transaction.account_id == account_id && p.transaction.transaction_type is Expense
            && scope.holds(p.transaction.date) {
            p.transaction.amount as int
        } else {
            0
        }
}

/// What a posting adds to the payments of a card in a scope: the amount
/// of a transfer to the card's account.
pub open spec fn payment_term(account_id: int, scope: Scope) -> spec_fn(PostedTransaction) -> int {
    |p: PostedTransaction|
        if p.transaction.to_account_id == Some(account_id as i64)
            && p.transaction.transaction_type is Transfer && scope.holds(p.transaction.date) {
            p.transaction.amount as int
        } else {
            0
        }
}

/// The expenses on an account in a scope.
pub open spec fn charges(postings: Seq<PostedTransaction>, account_id: int, scope: Scope) -> int {
    seq_sum(postings, charge_term(account_id, scope))
}

/// The transfers to an account in a scope.
pub open spec fn payments(postings: Seq<PostedTransaction>, account_id: int, scope: Scope) -> int {
    seq_sum(postings, payment_term(account_id, scope))
}

/// The expenses on an account in a scope.
pub fn sum_charges(ledger: &Ledger, account_id: i64, scope: Scope) -> (r: i128)
    requires
        ledger.wf(),
    ensures
        r == charges(ledger@.postings, account_id as int, scope),
        0 <= r <= VOLUME_LIMIT,
{
    let postings = ledger.postings();
    let ghost f = charge_term(account_id as int, scope);
    let mut sum: i128 = 0;
    let mut i: usize = 0;
    while i < postings.len()
        invariant
            i <= postings.len(),
            postings@ == ledger@.postings,
            ledger.wf(),
            f == charge_term(account_id as int, scope),
            sum == seq_sum(postings@.take(i as int), f),
            0 <= sum <= VOLUME_LIMIT,
        decreases postings.len() - i,
    {
        let t = &postings[i].transaction;
        proof {
            lemma_sum_take_step(postings@, i as int, f);
            assert forall|k: int| 0 <= k < postings@.len() implies 0 <= f(#[trigger] postings@[k])
                <= MAX_AMOUNT by {
                assert(posting_ok(postings@[k]));
            }
            lemma_prefix_sum_bounds(
                postings@,
                i + 1,
                f,
                0,
                MAX_AMOUNT as int,
                MAX_ROWS as int,
            );
        }
        let is_expense = match t.transaction_type {
            TransactionType::Expense => true,
            _ => false,
        };
        if t.account_id == account_id && is_expense && scope.contains(&t.date) {
            sum = sum + t.amount as i128;
        }
        i += 1;
    }
    proof {
        lemma_sum_take_all(postings@, f);
    }
    sum
}

/// The transfers to an account in a scope.
pub fn sum_payments(ledger: &Ledger, account_id: i64, scope: Scope) -> (r: i128)
    requires
        ledger.wf(),
    ensures
        r == payments(ledger@.postings, account_id as int, scope),
        0 <= r <= VOLUME_LIMIT,
{
    let postings = ledger.postings();
    let ghost f = payment_term(account_id as int, scope);
    let mut sum: i128 = 0;
    let mut i: usize = 0;
    while i < postings.len()
        invariant
            i <= postings.len(),
            postings@ == ledger@.postings,
            ledger.wf(),
            f == payment_term(account_id as int, scope),
            sum == seq_sum(postings@.take(i as int), f),
            0 <= sum <= VOLUME_LIMIT,
        decreases postings.len() - i,
    {
        let t = &postings[i].transaction;
        proof {
            lemma_sum_take_step(postings@, i as int, f);
            assert forall|k: int| 0 <= k < postings@.len() implies 0 <= f(#[trigger] postings@[k])
                <= MAX_AMOUNT by {
                assert(posting_ok(postings@[k]));
            }
            lemma_prefix_sum_bounds(
                postings@,
                i + 1,
                f,
                0,
                MAX_AMOUNT as int,
                MAX_ROWS as int,
            );
        }
        let is_transfer = match t.transaction_type {
            TransactionType::Transfer => true,
            _ => false,
        };
        let to_card = match t.to_account_id {
            Some(to) => to == account_id,
            None => false,
        };
        if to_card && is_transfer && scope.contains(&t.date) {
            sum = sum + t.amount as i128;
        }
        i += 1;
    }
    proof {
        lemma_sum_take_all(postings@, f);
    }
    sum
}

/// What was owed on a card before a date: the expenses on it less the
/// transfers to it, and nothing where the transfers were more.
pub open spec fn balance_before(postings: Seq<PostedTransaction>, account_id: int, date: Date)
    -> int {
    let owed = charges(postings, account_id, Scope::Before(date)) - payments(
        postings,
        account_id,
        Scope::Before(date),
    );
    if owed > 0 {
        owed
    } else {
        0
    }
}

/// What was owed on a card before a date.
pub fn calculate_balance_before_date(ledger: &Ledger, account_id: i64, before_date: &Date) -> (r:
    i128)
    requires
        ledger.wf(),
    ensures
        r == balance_before(ledger@.postings, account_id as int, *before_date),
        0 <= r <= VOLUME_LIMIT,
{
    let spent = sum_charges(ledger, account_id, Scope::Before(*before_date));
    let paid = sum_payments(ledger, account_id, Scope::Before(*before_date));
    if spent > paid {
        spent - paid
    } else {
        0
    }
}

/// The cards and their statements as a mathematical value.
pub struct CardBookView {
    pub cards: Seq<CreditCardSettings>,
    pub statements: Seq<CreditCardStatement>,
    pub next_card_id: int,
    pub next_statement_id: int,
}

/// The rules that the settings of a card meet.
pub open spec fn settings_ok(c: CreditCardSettings) -> bool {
    &&& 1 <= c.id <= MAX_ID
    &&& 0 <= c.credit_limit <= MAX_AMOUNT
    &&& 1 <= c.statement_day <= 28
    &&& 1 <= c.payment_due_day <= 28
    &&& c.minimum_payment_percentage <= 10000
}

/// The rules that a statement meets.
pub open spec fn statement_ok(s: CreditCardStatement) -> bool {
    &&& 1 <= s.id <= MAX_ID
    &&& -STATEMENT_LIMIT <= s.closing_balance <= STATEMENT_LIMIT
    &&& 0 <= s.paid_amount <= STATEMENT_LIMIT
}

pub open spec fn has_card(cards: Seq<CreditCardSettings>, id: int) -> bool {
    exists|i: int| 0 <= i < cards.len() && (#[trigger] cards[i]).id == id
}

/// Two statements are for the same cycle of the same card.
pub open spec fn same_cycle(a: CreditCardStatement, b: CreditCardStatement) -> bool {
    a.credit_card_id == b.credit_card_id && a.cycle_start_date == b.cycle_start_date
        && a.cycle_end_date == b.cycle_end_date
}

impl CardBookView {
    pub open spec fn wf(self) -> bool {
        &&& self.cards.len() <= MAX_ROWS
        &&& self.statements.len() <= MAX_ROWS
        &&& 1 <= self.next_card_id <= MAX_ID + 1
        &&& 1 <= self.next_statement_id <= MAX_ID + 1
        &&& forall|i: int|
            0 <= i < self.cards.len() ==> settings_ok(#[trigger] self.cards[i])
                && self.cards[i].id < self.next_card_id
        &&& forall|i: int, j: int|
            0 <= i < j < self.cards.len() ==> (#[trigger] self.cards[i]).id != (
            #[trigger] self.cards[j]).id && self.cards[i].account_id != self.cards[j].account_id
        &&& forall|i: int|
            0 <= i < self.statements.len() ==> statement_ok(#[trigger] self.statements[i])
                && self.statements[i].id < self.next_statement_id && has_card(
                self.cards,
                self.statements[i].credit_card_id as int,
            )
        &&& forall|i: int, j: int|
            0 <= i < j < self.statements.len() ==> (#[trigger] self.statements[i]).id != (
            #[trigger] self.statements[j]).id && !same_cycle(
                self.statements[i],
                self.statements[j],
            )
    }
}

/// The place of the card with the given identifier.
pub open spec fn card_index(cards: Seq<CreditCardSettings>, id: int) -> int {
    choose|i: int| 0 <= i < cards.len() && (#[trigger] cards[i]).id == id
}

/// Some card is billed on the account.
pub open spec fn account_has_card(cards: Seq<CreditCardSettings>, account_id: int) -> bool {
    exists|i: int| 0 <= i < cards.len() && (#[trigger] cards[i]).account_id == account_id
}

/// Some statement belongs to the card.
pub open spec fn card_has_statements(statements: Seq<CreditCardStatement>, card_id: int) -> bool {
    exists|i: int|
        0 <= i < statements.len() && (#[trigger] statements[i]).credit_card_id == card_id
}

/// Why an account cannot pay a card by itself; `None` where it can.
pub open spec fn settlement_account_error(
    accounts: Seq<Account>,
    settlement: Option<i64>,
    card_account: Option<i64>,
) -> Option<EngineError> {
    match settlement {
        None => None,
        Some(id) => if !has_account(accounts, id as int) {
            Some(EngineError::SettlementAccountNotFound)
        } else if !(account_with_id(accounts, id as int).account_type is Asset) {
            Some(EngineError::SettlementNotAsset)
        } else if card_account == Some(id) {
            Some(EngineError::SettlementIsCard)
        } else {
            None
        },
    }
}

/// Why the settings of a card are not created; `None` where they are.
pub open spec fn create_card_error(
    book: CardBookView,
    ledger: LedgerView,
    input: CreateCreditCardSettingsInput,
) -> Option<EngineError> {
    if !has_account(ledger.accounts, input.account_id as int) {
        Some(EngineError::AccountNotFound)
    } else if !(account_with_id(ledger.accounts, input.account_id as int).account_type
        is Liability) {
        Some(EngineError::NotLiabilityAccount)
    } else if account_has_card(book.cards, input.account_id as int) {
        Some(EngineError::DuplicateCard)
    } else if input.statement_day < 1 || input.statement_day > 28 {
        Some(EngineError::InvalidStatementDay)
    } else if input.payment_due_day < 1 || input.payment_due_day > 28 {
        Some(EngineError::InvalidDueDay)
    } else if input.credit_limit < 0 {
        Some(EngineError::NegativeCreditLimit)
    } else if input.credit_limit > MAX_AMOUNT {
        Some(EngineError::AmountOutOfRange)
    } else if settlement_account_error(
        ledger.accounts,
        input.settlement_account_id,
        Some(input.account_id),
    ) is Some {
        settlement_account_error(
            ledger.accounts,
            input.settlement_account_id,
            Some(input.account_id),
        )
    } else if input.minimum_payment_percentage is Some
        && input.minimum_payment_percentage.unwrap() > 10000 {
        Some(EngineError::InvalidPercentage)
    } else if book.cards.len() >= MAX_ROWS || book.next_card_id > MAX_ID {
        Some(EngineError::CapacityExceeded)
    } else {
        None
    }
}

/// The settings that a request creates under an identifier. The minimum
/// payment is five percent where none is given, and the card does not pay
/// itself unless that is asked for.
pub open spec fn settings_from(id: int, input: CreateCreditCardSettingsInput)
    -> CreditCardSettings {
    CreditCardSettings {
        id: id as i64,
        account_id: input.account_id,
        credit_limit: input.credit_limit,
        statement_day: input.statement_day as u32,
        payment_due_day: input.payment_due_day as u32,
        minimum_payment_percentage: match input.minimum_payment_percentage {
            Some(p) => p,
            None => 500,
        },
        auto_settlement_enabled: match input.auto_settlement_enabled {
            Some(b) => b,
            None => false,
        },
        settlement_account_id: input.settlement_account_id,
    }
}

/// Why the settings of a card are not changed; `None` where they are.
pub open spec fn update_card_error(
    book: CardBookView,
    ledger: LedgerView,
    input: UpdateCreditCardSettingsInput,
) -> Option<EngineError> {
    if !has_card(book.cards, input.id as int) {
        Some(EngineError::CardNotFound)
    } else if input.credit_limit is Some && input.credit_limit.unwrap() < 0 {
        Some(EngineError::NegativeCreditLimit)
    } else if input.credit_limit is Some && input.credit_limit.unwrap() > MAX_AMOUNT {
        Some(EngineError::AmountOutOfRange)
    } else if input.statement_day is Some && (input.statement_day.unwrap() < 1
        || input.statement_day.unwrap() > 28) {
        Some(EngineError::InvalidStatementDay)
    } else if input.payment_due_day is Some && (input.payment_due_day.unwrap() < 1
        || input.payment_due_day.unwrap() > 28) {
        Some(EngineError::InvalidDueDay)
    } else if input.minimum_payment_percentage is Some
        && input.minimum_payment_percentage.unwrap() > 10000 {
        Some(EngineError::InvalidPercentage)
    } else if settlement_account_error(ledger.accounts, input.settlement_account_id, None)
        is Some {
        settlement_account_error(ledger.accounts, input.settlement_account_id, None)
    } else if input.credit_limit is None && input.statement_day is None && input.payment_due_day
        is None && input.minimum_payment_percentage is None && input.auto_settlement_enabled
        is None && input.settlement_account_id is None {
        Some(EngineError::NothingToUpdate)
    } else {
        None
    }
}

/// The settings `c` with every field replaced that the request gives.
pub open spec fn amended_settings(c: CreditCardSettings, input: UpdateCreditCardSettingsInput)
    -> CreditCardSettings {
    CreditCardSettings {
        id: c.id,
        account_id: c.account_id,
        credit_limit: match input.credit_limit {
            Some(v) => v,
            None => c.credit_limit,
        },
        statement_day: match input.statement_day {
            Some(v) => v as u32,
            None => c.statement_day,
        },
        payment_due_day: match input.payment_due_day {
            Some(v) => v as u32,
            None => c.payment_due_day,
        },
        minimum_payment_percentage: match input.minimum_payment_percentage {
            Some(v) => v,
            None => c.minimum_payment_percentage,
        },
        auto_settlement_enabled: match input.auto_settlement_enabled {
            Some(v) => v,
            None => c.auto_settlement_enabled,
        },
        settlement_account_id: match input.settlement_account_id {
            Some(v) => Some(v),
            None => c.settlement_account_id,
        },
    }
}

/// What is still owed on a statement.
pub open spec fn owed(s: CreditCardStatement) -> int {
    s.closing_balance - s.paid_amount
}

/// A statement of the card that a payment can reach: not paid, with
/// something owed on it.
pub open spec fn payable(s: CreditCardStatement, card_id: int) -> bool {
    s.credit_card_id == card_id && !(s.status is Paid) && owed(s) > 0
}

/// The statement at `i` comes before the one at `j`: it is due earlier,
/// or on the same day and stands earlier in the book.
pub open spec fn due_before(statements: Seq<CreditCardStatement>, i: int, j: int) -> bool {
    date_lt(statements[i].due_date, statements[j].due_date) || (statements[i].due_date
        == statements[j].due_date && i < j)
}

/// The statement at `k` is the first of those that satisfy `p`.
pub open spec fn first_due(
    statements: Seq<CreditCardStatement>,
    k: int,
    p: spec_fn(CreditCardStatement) -> bool,
) -> bool {
    &&& 0 <= k < statements.len()
    &&& p(statements[k])
    &&& forall|j: int|
        0 <= j < statements.len() && p(#[trigger] statements[j]) && j != k ==> due_before(
            statements,
            k,
            j,
        )
}

pub open spec fn paid_term() -> spec_fn(CreditCardStatement) -> int {
    |s: CreditCardStatement| s.paid_amount as int
}

pub open spec fn owed_term(card_id: int) -> spec_fn(CreditCardStatement) -> int {
    |s: CreditCardStatement|
        if payable(s, card_id) {
            owed(s)
        } else {
            0
        }
}

/// What is owed on all payable statements of a card together.
pub open spec fn total_owed(statements: Seq<CreditCardStatement>, card_id: int) -> int {
    seq_sum(statements, owed_term(card_id))
}

/// What has been paid on all statements together.
pub open spec fn total_paid(statements: Seq<CreditCardStatement>) -> int {
    seq_sum(statements, paid_term())
}

/// The statement `s` after `amount` of a payment of `date` has been
/// applied to it.
pub open spec fn with_payment(s: CreditCardStatement, amount: int, date: Date)
    -> CreditCardStatement {
    CreditCardStatement {
        paid_amount: (s.paid_amount + amount) as i128,
        status: if s.paid_amount + amount == s.closing_balance {
            StatementStatus::Paid
        } else {
            StatementStatus::Partial
        },
        paid_date: Some(date),
        ..s
    }
}

/// `after` is what `before` becomes when a payment for a card is applied
/// to its statements, the one that is due first before the others:
/// - a statement receives nothing, and stays as it is, or receives part of
///   the payment, never more than is owed on it;
/// - all that is paid is the payment, or all that is owed where that is
///   less;
/// - a statement receives something only when every payable statement
///   that comes before it is paid in full.
pub open spec fn payment_allocated(
    before: Seq<CreditCardStatement>,
    after: Seq<CreditCardStatement>,
    card_id: int,
    payment: int,
    date: Date,
) -> bool {
    &&& after.len() == before.len()
    &&& forall|i: int|
        0 <= i < before.len() ==> (#[trigger] after[i]) == before[i] || (payable(
            before[i],
            card_id,
        ) && 0 < after[i].paid_amount - before[i].paid_amount <= owed(before[i]) && after[i]
            == with_payment(before[i], after[i].paid_amount - before[i].paid_amount, date))
    &&& total_paid(after) - total_paid(before) == (if payment <= 0 {
        0
    } else if payment <= total_owed(before, card_id) {
        payment
    } else {
        total_owed(before, card_id)
    })
    &&& forall|i: int, j: int|
        0 <= i < before.len() && 0 <= j < before.len() && payable(before[i], card_id)
            && due_before(before, i, j) && (#[trigger] after[j]).paid_amount
            > before[j].paid_amount ==> (#[trigger] after[i]).paid_amount
            == before[i].closing_balance
}

/// A payment never pays more on a statement than is owed on it: no
/// statement has less paid on it after a payment than before, and what is
/// owed on a statement is not negative afterwards where it was not
/// negative before.
pub proof fn lemma_payment_never_overpays(
    before: Seq<CreditCardStatement>,
    after: Seq<CreditCardStatement>,
    card_id: int,
    payment: int,
    date: Date,
)
    requires
        payment_allocated(before, after, card_id, payment, date),
    ensures
        forall|i: int|
            0 <= i < before.len() ==> (#[trigger] after[i]).paid_amount >= before[i].paid_amount
                && after[i].closing_balance == before[i].closing_balance && (owed(before[i]) >= 0
                ==> owed(after[i]) >= 0),
{
    assert forall|i: int| 0 <= i < before.len() implies (#[trigger] after[i]).paid_amount
        >= before[i].paid_amount && after[i].closing_balance == before[i].closing_balance && (owed(
        before[i],
    ) >= 0 ==> owed(after[i]) >= 0) by {
        if after[i] != before[i] {
            let amount = after[i].paid_amount - before[i].paid_amount;
            assert(after[i] == with_payment(before[i], amount, date));
        }
    }
}

/// Among cards with distinct identifiers, the place of an identifier is
/// the only place that holds it.
pub proof fn lemma_card_index(v: CardBookView, k: int)
    requires
        v.wf(),
        0 <= k < v.cards.len(),
    ensures
        card_index(v.cards, v.cards[k].id as int) == k,
{
    let id = v.cards[k].id as int;
    let i = card_index(v.cards, id);
    assert(0 <= i < v.cards.len() && v.cards[i].id == id);
    if i < k {
        assert(v.cards[i].id != v.cards[k].id);
    } else if k < i {
        assert(v.cards[k].id != v.cards[i].id);
    }
}

pub open spec fn positive_part(x: int) -> int {
    if x > 0 {
        x
    } else {
        0
    }
}

/// The figures of a card on a day:
/// - the total balance is what is owed on the account over the whole
///   journal;
/// - charges and payments of the running cycle are those dated on or
///   after its first day, and the outstanding balance is what the charges
///   exceed the payments by;
/// - the available credit is what the limit exceeds the total balance by;
/// - the utilization is the total balance as a share of the limit, in
///   hundredths of a percent, and zero for a limit of zero.
pub open spec fn card_balances(
    postings: Seq<PostedTransaction>,
    account: Account,
    card: CreditCardSettings,
    today: Date,
) -> CardBalances {
    let total = liability_magnitude_spec(balance_of(account, postings, Scope::All));
    let start = cycle_spec(today, card.statement_day).0;
    let spent = charges(postings, card.account_id as int, Scope::From(start));
    let paid = payments(postings, card.account_id as int, Scope::From(start));
    CardBalances {
        total_balance: total as i128,
        outstanding_balance: positive_part(spent - paid) as i128,
        available_credit: positive_part(card.credit_limit - total) as i128,
        current_cycle_charges: spent as i128,
        current_cycle_payments: paid as i128,
        utilization_percentage: if card.credit_limit > 0 {
            div_round(total * 10000, card.credit_limit as int) as i128
        } else {
            0
        },
    }
}

/// The figures of a card on a day.
pub fn calculate_card_balances(ledger: &Ledger, settings: &CreditCardSettings, today: Date) -> (r:
    Result<CardBalances, EngineError>)
    requires
        ledger.wf(),
        settings_ok(*settings),
        today.valid(),
    ensures
        match r {
            Ok(b) => has_account(ledger@.accounts, settings.account_id as int) && b
                == card_balances(
                ledger@.postings,
                account_with_id(ledger@.accounts, settings.account_id as int),
                *settings,
                today,
            ) && 0 <= b.total_balance <= BALANCE_LIMIT,
            Err(e) => e == EngineError::AccountNotFound && !has_account(
                ledger@.accounts,
                settings.account_id as int,
            ),
        },
{
    let k = match ledger.find_account(settings.account_id) {
        Some(k) => k,
        None => {
            return Err(EngineError::AccountNotFound);
        },
    };
    proof {
        lemma_account_index(ledger@.accounts, k as int);
    }
    let raw = balance_at(ledger, k, Scope::All);
    let total: i128 = if raw < 0 {
        -raw
    } else {
        0
    };
    let (cycle_start, _cycle_end) = compute_current_cycle_dates(today, settings.statement_day);
    let spent = sum_charges(ledger, settings.account_id, Scope::From(cycle_start));
    let paid = sum_payments(ledger, settings.account_id, Scope::From(cycle_start));
    let outstanding = if spent > paid {
        spent - paid
    } else {
        0
    };
    let limit = settings.credit_limit as i128;
    let available = if limit > total {
        limit - total
    } else {
        0
    };
    let utilization = if settings.credit_limit > 0 {
        round_div(total * 10000, limit)
    } else {
        0
    };
    Ok(
        CardBalances {
            total_balance: total,
            outstanding_balance: outstanding,
            available_credit: available,
            current_cycle_charges: spent,
            current_cycle_payments: paid,
            utilization_percentage: utilization,
        },
    )
}

/// The place of the statement of a card whose cycle ended last; of
/// several that ended on one day, the first.
pub open spec fn latest_statement(statements: Seq<CreditCardStatement>, card_id: int) -> Option<
    int,
>
    decreases statements.len(),
{
    if statements.len() == 0 {
        None
    } else {
        let front = latest_statement(statements.drop_last(), card_id);
        let last = statements.len() - 1;
        if statements[last].credit_card_id == card_id && (front is None || date_lt(
            statements[front.unwrap()].cycle_end_date,
            statements[last].cycle_end_date,
        )) {
            Some(last)
        } else {
            front
        }
    }
}

/// A statement is stored for the card and the cycle.
pub open spec fn cycle_stored(
    statements: Seq<CreditCardStatement>,
    card_id: int,
    start: Date,
    end: Date,
) -> bool {
    exists|i: int|
        0 <= i < statements.len() && (#[trigger] statements[i]).credit_card_id == card_id
            && statements[i].cycle_start_date == start && statements[i].cycle_end_date == end
}

/// The balance that a new statement of a card opens with: the closing
/// balance of its latest statement, or, for its first statement, what was
/// owed on the account before the cycle.
pub open spec fn opening_balance(
    statements: Seq<CreditCardStatement>,
    postings: Seq<PostedTransaction>,
    card: CreditCardSettings,
    cycle_start: Date,
) -> int {
    match latest_statement(statements, card.id as int) {
        Some(i) => statements[i].closing_balance as int,
        None => balance_before(postings, card.account_id as int, cycle_start),
    }
}

/// The statement that closes the cycle in which `today` lies: the charges
/// are the expenses on the card's account in the cycle, the payments the
/// transfers to it, the closing balance is the opening balance plus the
/// charges less the payments, and the minimum payment is the card's
/// percentage of the closing balance, never less than nothing.
pub open spec fn statement_for(
    book: CardBookView,
    postings: Seq<PostedTransaction>,
    card: CreditCardSettings,
    today: Date,
) -> CreditCardStatement {
    let (start, end) = cycle_spec(today, card.statement_day);
    let scope = Scope::Between(start, end);
    let spent = charges(postings, card.account_id as int, scope);
    let paid = payments(postings, card.account_id as int, scope);
    let opening = opening_balance(book.statements, postings, card, start);
    let closing = opening + spent - paid;
    CreditCardStatement {
        id: book.next_statement_id as i64,
        credit_card_id: card.id,
        statement_date: end,
        due_date: due_date_spec(end, card.payment_due_day),
        cycle_start_date: start,
        cycle_end_date: end,
        opening_balance: opening as i128,
        total_charges: spent as i128,
        total_payments: paid as i128,
        closing_balance: closing as i128,
        minimum_payment: positive_part(
            div_round(closing * card.minimum_payment_percentage, 10000),
        ) as i128,
        status: StatementStatus::Closed,
        paid_amount: 0,
        paid_date: None,
    }
}

/// Why no statement is generated; `None` where one is.
pub open spec fn generate_error(
    book: CardBookView,
    postings: Seq<PostedTransaction>,
    settings_id: int,
    today: Date,
) -> Option<EngineError> {
    if !has_card(book.cards, settings_id) {
        Some(EngineError::CardNotFound)
    } else {
        let card = book.cards[card_index(book.cards, settings_id)];
        let cycle = cycle_spec(today, card.statement_day);
        let candidate = statement_for(book, postings, card, today);
        if cycle_stored(book.statements, settings_id, cycle.0, cycle.1) {
            Some(EngineError::DuplicateStatement)
        } else if candidate.opening_balance + candidate.total_charges - candidate.total_payments
            > STATEMENT_LIMIT || candidate.opening_balance + candidate.total_charges
            - candidate.total_payments < -STATEMENT_LIMIT {
            Some(EngineError::Overflow)
        } else if book.statements.len() >= MAX_ROWS || book.next_statement_id > MAX_ID {
            Some(EngineError::CapacityExceeded)
        } else {
            None
        }
    }
}

/// The running billing cycle of a card on a day.
pub open spec fn billing_cycle(card: CreditCardSettings, today: Date) -> BillingCycleInfo {
    let (start, end) = cycle_spec(today, card.statement_day);
    BillingCycleInfo {
        cycle_start_date: start,
        cycle_end_date: end,
        due_date: due_date_spec(end, card.payment_due_day),
        days_remaining: positive_part(day_number(end) - day_number(today)) as i64,
    }
}

/// A statement of the card that is not paid: open or closed, and partly
/// paid where those are asked for too.
pub open spec fn unpaid(s: CreditCardStatement, card_id: int, include_partial: bool) -> bool {
    s.credit_card_id == card_id && (s.status is Open || s.status is Closed || (include_partial
        && s.status is Partial))
}

/// The place of the unpaid statement of a card that is due first; of
/// several that are due on one day, the first.
pub open spec fn first_unpaid(
    statements: Seq<CreditCardStatement>,
    card_id: int,
    include_partial: bool,
) -> Option<int>
    decreases statements.len(),
{
    if statements.len() == 0 {
        None
    } else {
        let front = first_unpaid(statements.drop_last(), card_id, include_partial);
        let last = statements.len() - 1;
        if unpaid(statements[last], card_id, include_partial) && (front is None || date_lt(
            statements[last].due_date,
            statements[front.unwrap()].due_date,
        )) {
            Some(last)
        } else {
            front
        }
    }
}

/// The amount that a settlement pays: the amount that is asked for, or
/// all that is owed on the card's account where none is.
pub open spec fn settlement_amount(ledger: LedgerView, card: CreditCardSettings, input:
    SettlementInput) -> int {
    match input.amount {
        Some(a) => a as int,
        None => liability_magnitude_spec(
            balance_of(
                account_with_id(ledger.accounts, card.account_id as int),
                ledger.postings,
                Scope::All,
            ),
        ),
    }
}

/// The date of a settlement: the date that is asked for, or today.
pub open spec fn settlement_date(input: SettlementInput, today: Date) -> Date {
    match input.date {
        Some(d) => d,
        None => today,
    }
}

/// The transfer that a settlement posts, from the paying account to the
/// card's account.
pub open spec fn settlement_draft(
    ledger: LedgerView,
    card: CreditCardSettings,
    input: SettlementInput,
    today: Date,
    auto: bool,
) -> TransactionDraft {
    TransactionDraft {
        date: settlement_date(input, today),
        transaction_type: TransactionType::Transfer,
        amount: settlement_amount(ledger, card, input) as i64,
        account_id: input.payment_account_id,
        to_account_id: Some(card.account_id),
        category_id: None,
        memo: None,
        photo_path: None,
        auto_settlement: auto,
    }
}

/// Why a card is not settled; `None` where it is.
pub open spec fn settle_error(
    book: CardBookView,
    ledger: LedgerView,
    input: SettlementInput,
    today: Date,
    auto: bool,
) -> Option<EngineError> {
    if !has_card(book.cards, input.credit_card_settings_id as int) {
        Some(EngineError::CardNotFound)
    } else {
        let card = book.cards[card_index(book.cards, input.credit_card_settings_id as int)];
        if !has_account(ledger.accounts, input.payment_account_id as int) {
            Some(EngineError::PaymentAccountNotFound)
        } else if !(account_with_id(ledger.accounts, input.payment_account_id as int).account_type
            is Asset) {
            Some(EngineError::PaymentNotAsset)
        } else if input.payment_account_id == card.account_id {
            Some(EngineError::PaymentFromCard)
        } else if !has_account(ledger.accounts, card.account_id as int) {
            Some(EngineError::AccountNotFound)
        } else if input.amount is Some && input.amount.unwrap() <= 0 {
            Some(EngineError::NonPositiveAmount)
        } else if input.amount is None && settlement_amount(ledger, card, input) <= 0 {
            Some(EngineError::NothingToPay)
        } else if settlement_amount(ledger, card, input) > MAX_AMOUNT {
            Some(EngineError::AmountOutOfRange)
        } else {
            draft_error(ledger, settlement_draft(ledger, card, input, today, auto))
        }
    }
}

/// The memo of the transfer that a settlement posts: what kind of
/// settlement it is, and the identifier of the card's account.
pub open spec fn settlement_memo(auto: bool, account_id: int) -> Seq<char> {
    if auto {
        "Auto-settlement - "@ + number_text(account_id)
    } else {
        "Credit card payment - "@ + number_text(account_id)
    }
}

/// What a settlement leaves behind: one more transaction in the ledger,
/// the transfer of the amount from the paying account to the card's
/// account, and the amount applied to the statements of the card.
pub open spec fn settled(
    book: CardBookView,
    ledger: LedgerView,
    book_after: CardBookView,
    ledger_after: LedgerView,
    id: int,
    input: SettlementInput,
    today: Date,
    auto: bool,
) -> bool {
    let card = book.cards[card_index(book.cards, input.credit_card_settings_id as int)];
    let t = ledger_after.postings.last().transaction;
    let draft = settlement_draft(ledger, card, input, today, auto);
    &&& id == ledger.next_transaction_id
    &&& posted_as(ledger, ledger_after, t)
    &&& t.id == id
    &&& t.date == draft.date
    &&& t.transaction_type is Transfer
    &&& t.amount == draft.amount
    &&& t.account_id == draft.account_id
    &&& t.to_account_id == draft.to_account_id
    &&& t.category_id is None
    &&& t.photo_path is None
    &&& t.auto_settlement == auto
    &&& t.memo matches Some(text) && text@ == settlement_memo(auto, card.account_id as int)
    &&& book_after.cards == book.cards
    &&& book_after.next_card_id == book.next_card_id
    &&& book_after.next_statement_id == book.next_statement_id
    &&& payment_allocated(
        book.statements,
        book_after.statements,
        card.id as int,
        draft.amount as int,
        draft.date,
    )
}

/// The transaction is a settlement that a card made by itself on the day.
pub open spec fn is_auto_settlement(
    t: crate::model::Transaction,
    settlement_account: int,
    card_account: int,
    today: Date,
) -> bool {
    t.transaction_type is Transfer && t.to_account_id == Some(card_account as i64) && t.account_id
        == settlement_account && t.date == today && t.auto_settlement
}

/// A card has already settled itself on the day.
pub open spec fn already_settled(
    postings: Seq<PostedTransaction>,
    settlement_account: int,
    card_account: int,
    today: Date,
) -> bool {
    exists|i: int|
        0 <= i < postings.len() && is_auto_settlement(
            (#[trigger] postings[i]).transaction,
            settlement_account,
            card_account,
            today,
        )
}

/// What a card pays by itself on a day: what is owed on its statement that
/// is due first among the open and closed ones, if the card settles
/// itself, has an account to pay from, the day is its due day, and it has
/// not settled itself on that day yet; else nothing.
pub open spec fn auto_settlement_due(
    book: CardBookView,
    postings: Seq<PostedTransaction>,
    card: CreditCardSettings,
    today: Date,
) -> Option<int> {
    if !card.auto_settlement_enabled || card.settlement_account_id is None || today.day
        != card.payment_due_day || already_settled(
        postings,
        card.settlement_account_id.unwrap() as int,
        card.account_id as int,
        today,
    ) {
        None
    } else {
        match first_unpaid(book.statements, card.id as int, false) {
            Some(i) => if owed(book.statements[i]) > 0 {
                Some(owed(book.statements[i]))
            } else {
                None
            },
            None => None,
        }
    }
}

/// Why the settings of a card are not taken back; `None` where they are.
pub open spec fn restore_card_error(v: CardBookView, card: CreditCardSettings) -> Option<
    EngineError,
> {
    if !settings_ok(card) {
        Some(EngineError::InvalidRecord)
    } else if exists|i: int|
        0 <= i < v.cards.len() && ((#[trigger] v.cards[i]).id == card.id || v.cards[i].account_id
            == card.account_id) {
        Some(EngineError::DuplicateId)
    } else if v.cards.len() >= MAX_ROWS {
        Some(EngineError::CapacityExceeded)
    } else {
        None
    }
}

/// Why a statement is not taken back; `None` where it is.
pub open spec fn restore_statement_error(v: CardBookView, s: CreditCardStatement) -> Option<
    EngineError,
> {
    if !statement_ok(s) {
        Some(EngineError::InvalidRecord)
    } else if !has_card(v.cards, s.credit_card_id as int) {
        Some(EngineError::CardNotFound)
    } else if exists|i: int|
        0 <= i < v.statements.len() && ((#[trigger] v.statements[i]).id == s.id || same_cycle(
            v.statements[i],
            s,
        )) {
        Some(EngineError::DuplicateId)
    } else if v.statements.len() >= MAX_ROWS {
        Some(EngineError::CapacityExceeded)
    } else {
        None
    }
}

/// A card with its figures on a day.
pub open spec fn details_of(ledger: LedgerView, card: CreditCardSettings, today: Date)
    -> CreditCardWithDetails {
    CreditCardWithDetails {
        settings: card,
        balances: card_balances(
            ledger.postings,
            account_with_id(ledger.accounts, card.account_id as int),
            card,
            today,
        ),
    }
}

/// A card as the dashboard shows it on a day: its figures, and the due
/// date and the amount still owed of its unpaid statement that is due
/// first.
pub open spec fn summary_of(
    book: CardBookView,
    ledger: LedgerView,
    card: CreditCardSettings,
    today: Date,
) -> CreditCardSummary {
    let figures = details_of(ledger, card, today).balances;
    let next = first_unpaid(book.statements, card.id as int, true);
    CreditCardSummary {
        account_id: card.account_id,
        total_balance: figures.total_balance,
        credit_limit: card.credit_limit,
        available_credit: figures.available_credit,
        next_due_date: match next {
            Some(i) => Some(book.statements[i].due_date),
            None => None,
        },
        next_due_amount: match next {
            Some(i) => Some(owed(book.statements[i]) as i128),
            None => None,
        },
        utilization_percentage: figures.utilization_percentage,
    }
}

/// The posting at `place` is a settlement that a card made by itself on
/// the day, with the given identifier.
pub open spec fn auto_posted(postings: Seq<PostedTransaction>, place: int, id: i64, today: Date)
    -> bool {
    let t = postings[place].transaction;
    &&& t.id == id
    &&& t.transaction_type is Transfer
    &&& t.auto_settlement
    &&& t.date == today
}

/// The cards and their statements.
pub struct CardBook {
    cards: Vec<CreditCardSettings>,
    statements: Vec<CreditCardStatement>,
    next_card_id: i64,
    next_statement_id: i64,
}

impl View for CardBook {
    type V = CardBookView;

    closed spec fn view(&self) -> CardBookView {
        CardBookView {
            cards: self.cards@,
            statements: self.statements@,
            next_card_id: self.next_card_id as int,
            next_statement_id: self.next_statement_id as int,
        }
    }
}

impl CardBook {
    pub open spec fn wf(&self) -> bool {
        self@.wf()
    }

    /// A book without cards.
    pub fn new() -> (r: CardBook)
        ensures
            r.wf(),
            r@.cards.len() == 0,
            r@.statements.len() == 0,
            r@.next_card_id == 1,
            r@.next_statement_id == 1,
    {
        CardBook {
            cards: Vec::new(),
            statements: Vec::new(),
            next_card_id: 1,
            next_statement_id: 1,
        }
    }

    pub fn cards(&self) -> (r: &Vec<CreditCardSettings>)
        ensures
            r@ == self@.cards,
    {
        &self.cards
    }

    pub fn statements(&self) -> (r: &Vec<CreditCardStatement>)
        ensures
            r@ == self@.statements,
    {
        &self.statements
    }

    /// The place of the card with the given identifier.
    pub fn find_card(&self, id: i64) -> (r: Option<usize>)
        ensures
            match r {
                Some(i) => i < self@.cards.len() && self@.cards[i as int].id == id,
                None => !has_card(self@.cards, id as int),
            },
    {
        let mut i: usize = 0;
        while i < self.cards.len()
            invariant
                i <= self.cards.len(),
                forall|k: int| 0 <= k < i ==> (#[trigger] self.cards@[k]).id != id,
            decreases self.cards.len() - i,
        {
            if self.cards[i].id == id {
                return Some(i);
            }
            i += 1;
        }
        None
    }

    /// The place of the payable statement of a card that is due first.
    pub fn find_first_payable(&self, card_id: i64) -> (r: Option<usize>)
        ensures
            match r {
                Some(k) => first_due(
                    self@.statements,
                    k as int,
                    |s: CreditCardStatement| payable(s, card_id as int),
                ),
                None => forall|j: int|
                    0 <= j < self@.statements.len() ==> !payable(
                        #[trigger] self@.statements[j],
                        card_id as int,
                    ),
            },
    {
        let mut best: Option<usize> = None;
        let mut i: usize = 0;
        while i < self.statements.len()
            invariant
                i <= self.statements.len(),
                match best {
                    Some(b) => b < i && payable(self.statements@[b as int], card_id as int)
                        && forall|j: int|
                        0 <= j < i && payable(#[trigger] self.statements@[j], card_id as int) && j
                            != b ==> due_before(self.statements@, b as int, j),
                    None => forall|j: int|
                        0 <= j < i ==> !payable(#[trigger] self.statements@[j], card_id as int),
                },
            decreases self.statements.len() - i,
        {
            let s = &self.statements[i];
            let is_paid = match s.status {
                StatementStatus::Paid => true,
                _ => false,
            };
            if s.credit_card_id == card_id && !is_paid && s.closing_balance > s.paid_amount {
                match best {
                    None => {
                        best = Some(i);
                    },
                    Some(b) => {
                        if s.due_date.is_before(&self.statements[b].due_date) {
                            best = Some(i);
                        }
                    },
                }
            }
            i += 1;
        }
        best
    }

    /// Applies a payment for a card to its statements, the one that is due
    /// first before the others, and marks each statement that it reaches
    /// as paid or as partly paid.
    pub fn update_statement_payment_status(
        &mut self,
        settings_id: i64,
        payment_amount: i64,
        paid_date: Date,
    )
        requires
            old(self).wf(),
        ensures
            final(self).wf(),
            final(self)@.cards == old(self)@.cards,
            final(self)@.next_card_id == old(self)@.next_card_id,
            final(self)@.next_statement_id == old(self)@.next_statement_id,
            payment_allocated(
                old(self)@.statements,
                final(self)@.statements,
                settings_id as int,
                payment_amount as int,
                paid_date,
            ),
    {
        let ghost before = self@.statements;
        let ghost card = settings_id as int;
        let mut remaining: i128 = if payment_amount > 0 {
            payment_amount as i128
        } else {
            0
        };
        let ghost pay: int = remaining as int;
        let mut done = false;
        while remaining > 0 && !done
            invariant
                self.wf(),
                self@.cards == old(self)@.cards,
                self@.next_card_id == old(self)@.next_card_id,
                self@.next_statement_id == old(self)@.next_statement_id,
                before == old(self)@.statements,
                card == settings_id as int,
                self@.statements.len() == before.len(),
                0 <= remaining <= pay,
                pay <= i64::MAX,
                forall|i: int|
                    0 <= i < before.len() ==> (#[trigger] self@.statements[i]) == before[i] || (
                    payable(before[i], card) && 0 < self@.statements[i].paid_amount
                        - before[i].paid_amount <= owed(before[i]) && self@.statements[i]
                        == with_payment(
                        before[i],
                        self@.statements[i].paid_amount - before[i].paid_amount,
                        paid_date,
                    )),
                total_paid(self@.statements) - total_paid(before) == pay - remaining,
                forall|i: int, j: int|
                    0 <= i < before.len() && 0 <= j < before.len() && payable(before[i], card)
                        && due_before(before, i, j) && (#[trigger] self@.statements[j]).paid_amount
                        > before[j].paid_amount ==> (#[trigger] self@.statements[i]).paid_amount
                        == before[i].closing_balance,
                remaining > 0 ==> forall|i: int|
                    0 <= i < before.len() && (#[trigger] self@.statements[i]).paid_amount
                        > before[i].paid_amount ==> self@.statements[i].paid_amount
                        == before[i].closing_balance,
                done ==> forall|j: int|
                    0 <= j < before.len() ==> !payable(#[trigger] self@.statements[j], card),
            decreases remaining, (if done { 0int } else { 1int }),
        {
            match self.find_first_payable(settings_id) {
                None => {
                    done = true;
                },
                Some(k) => {
                    let ghost cur = self@.statements;
                    let s = self.statements[k];
                    assert(s == cur[k as int]);
                    assert(cur[k as int] == before[k as int]);
                    assert(statement_ok(s));
                    let stmt_remaining = s.closing_balance - s.paid_amount;
                    let apply = if remaining < stmt_remaining {
                        remaining
                    } else {
                        stmt_remaining
                    };
                    let new_paid = s.paid_amount + apply;
                    let new_status = if new_paid == s.closing_balance {
                        StatementStatus::Paid
                    } else {
                        StatementStatus::Partial
                    };
                    let updated = CreditCardStatement {
                        id: s.id,
                        credit_card_id: s.credit_card_id,
                        statement_date: s.statement_date,
                        due_date: s.due_date,
                        cycle_start_date: s.cycle_start_date,
                        cycle_end_date: s.cycle_end_date,
                        opening_balance: s.opening_balance,
                        total_charges: s.total_charges,
                        total_payments: s.total_payments,
                        closing_balance: s.closing_balance,
                        minimum_payment: s.minimum_payment,
                        status: new_status,
                        paid_amount: new_paid,
                        paid_date: Some(paid_date),
                    };
                    assert(updated == with_payment(before[k as int], apply as int, paid_date));
                    self.statements.set(k, updated);
                    remaining = remaining - apply;
                    proof {
                        let now = self@.statements;
                        assert(now =~= cur.update(k as int, updated));
                        lemma_sum_update(cur, k as int, updated, paid_term());
                        assert forall|i: int| 0 <= i < now.len() implies (#[trigger] now[i]).id
                            == cur[i].id && same_cycle(now[i], cur[i]) && now[i].due_date
                            == cur[i].due_date by {}
                        assert forall|i: int| 0 <= i < before.len() implies cur[i].due_date
                            == before[i].due_date by {}
                        assert forall|i: int, j: int|
                            0 <= i < before.len() && 0 <= j < before.len() && payable(
                                before[i],
                                card,
                            ) && due_before(before, i, j) && (#[trigger] now[j]).paid_amount
                                > before[j].paid_amount implies (#[trigger] now[i]).paid_amount
                            == before[i].closing_balance by {
                            if j == k {
                                assert(i != k);
                                if cur[i] == before[i] {
                                    assert(payable(cur[i], card));
                                    assert(due_before(cur, k as int, i));
                                    assert(false);
                                }
                                assert(cur[i].paid_amount > before[i].paid_amount);
                            } else {
                                assert(now[j] == cur[j]);
                                assert(cur[i].paid_amount == before[i].closing_balance);
                                assert(i != k);
                            }
                            assert(now[i] == cur[i]);
                        }
                    }
                },
            }
        }
        proof {
            let now = self@.statements;
            let both = |s: CreditCardStatement| paid_term()(s) + owed_term(card)(s);
            lemma_sum_add(before, paid_term(), owed_term(card));
            if remaining == 0 {
                assert forall|i: int| 0 <= i < now.len() implies paid_term()(#[trigger] now[i])
                    <= both(before[i]) by {}
                lemma_sum_pairwise_le(now, before, paid_term(), both);
            } else {
                assert(done);
                assert forall|i: int| 0 <= i < now.len() implies paid_term()(#[trigger] now[i])
                    == both(before[i]) by {
                    if now[i] == before[i] {
                        assert(!payable(now[i], card));
                    }
                }
                lemma_sum_pairwise_eq(now, before, paid_term(), both);
            }
        }
    }

    /// Tests whether an account can pay a card by itself: it exists, is an
    /// asset account, and is not the card's own account.
    fn check_settlement_account(
        ledger: &Ledger,
        settlement: Option<i64>,
        card_account: Option<i64>,
    ) -> (r: Result<(), EngineError>)
        requires
            ledger.wf(),
        ensures
            match r {
                Ok(_) => settlement_account_error(ledger@.accounts, settlement, card_account)
                    is None,
                Err(e) => settlement_account_error(ledger@.accounts, settlement, card_account)
                    == Some(e),
            },
    {
        match settlement {
            None => Ok(()),
            Some(id) => match ledger.find_account(id) {
                None => Err(EngineError::SettlementAccountNotFound),
                Some(k) => {
                    proof {
                        lemma_account_index(ledger@.accounts, k as int);
                    }
                    let is_asset = match ledger.accounts()[k].account_type {
                        AccountType::Asset => true,
                        AccountType::Liability => false,
                    };
                    if !is_asset {
                        return Err(EngineError::SettlementNotAsset);
                    }
                    let is_card = match card_account {
                        Some(c) => c == id,
                        None => false,
                    };
                    if is_card {
                        return Err(EngineError::SettlementIsCard);
                    }
                    Ok(())
                },
            },
        }
    }

    /// Whether some card is billed on the account.
    pub fn is_card_account(&self, account_id: i64) -> (b: bool)
        ensures
            b == account_has_card(self@.cards, account_id as int),
    {
        let mut i: usize = 0;
        while i < self.cards.len()
            invariant
                i <= self.cards.len(),
                forall|k: int| 0 <= k < i ==> (#[trigger] self.cards@[k]).account_id != account_id,
            decreases self.cards.len() - i,
        {
            if self.cards[i].account_id == account_id {
                return true;
            }
            i += 1;
        }
        false
    }

    /// Whether some statement belongs to the card.
    pub fn has_statements(&self, card_id: i64) -> (b: bool)
        ensures
            b == card_has_statements(self@.statements, card_id as int),
    {
        let mut i: usize = 0;
        while i < self.statements.len()
            invariant
                i <= self.statements.len(),
                forall|k: int|
                    0 <= k < i ==> (#[trigger] self.statements@[k]).credit_card_id != card_id,
            decreases self.statements.len() - i,
        {
            if self.statements[i].credit_card_id == card_id {
                return true;
            }
            i += 1;
        }
        false
    }

    /// Sets a liability account up as a credit card.
    pub fn create_credit_card_settings(
        &mut self,
        ledger: &Ledger,
        input: CreateCreditCardSettingsInput,
    ) -> (r: Result<CreditCardSettings, EngineError>)
        requires
            old(self).wf(),
            ledger.wf(),
        ensures
            final(self).wf(),
            match r {
                Ok(c) => create_card_error(old(self)@, ledger@, input) is None && c
                    == settings_from(old(self)@.next_card_id, input) && final(self)@ == (
                CardBookView {
                    cards: old(self)@.cards.push(c),
                    next_card_id: old(self)@.next_card_id + 1,
                    ..old(self)@
                }),
                Err(e) => create_card_error(old(self)@, ledger@, input) == Some(e)
                    && final(self)@ == old(self)@,
            },
    {
        let k = match ledger.find_account(input.account_id) {
            Some(k) => k,
            None => {
                return Err(EngineError::AccountNotFound);
            },
        };
        proof {
            lemma_account_index(ledger@.accounts, k as int);
        }
        let is_liability = match ledger.accounts()[k].account_type {
            AccountType::Liability => true,
            AccountType::Asset => false,
        };
        if !is_liability {
            return Err(EngineError::NotLiabilityAccount);
        }
        if self.is_card_account(input.account_id) {
            return Err(EngineError::DuplicateCard);
        }
        if input.statement_day < 1 || input.statement_day > 28 {
            return Err(EngineError::InvalidStatementDay);
        }
        if input.payment_due_day < 1 || input.payment_due_day > 28 {
            return Err(EngineError::InvalidDueDay);
        }
        if input.credit_limit < 0 {
            return Err(EngineError::NegativeCreditLimit);
        }
        if input.credit_limit > MAX_AMOUNT {
            return Err(EngineError::AmountOutOfRange);
        }
        match CardBook::check_settlement_account(
            ledger,
            input.settlement_account_id,
            Some(input.account_id),
        ) {
            Ok(_) => {},
            Err(e) => {
                return Err(e);
            },
        }
        let percentage = match input.minimum_payment_percentage {
            Some(p) => p,
            None => 500,
        };
        if percentage > 10000 {
            return Err(EngineError::InvalidPercentage);
        }
        if self.cards.len() >= MAX_ROWS || self.next_card_id > MAX_ID {
            return Err(EngineError::CapacityExceeded);
        }
        let id = self.next_card_id;
        let settings = CreditCardSettings {
            id,
            account_id: input.account_id,
            credit_limit: input.credit_limit,
            statement_day: input.statement_day as u32,
            payment_due_day: input.payment_due_day as u32,
            minimum_payment_percentage: percentage,
            auto_settlement_enabled: match input.auto_settlement_enabled {
                Some(b) => b,
                None => false,
            },
            settlement_account_id: input.settlement_account_id,
        };
        let ghost before = self@;
        self.cards.push(settings);
        self.next_card_id = id + 1;
        proof {
            let after = self@;
            assert forall|i: int| 0 <= i < after.cards.len() implies settings_ok(
                #[trigger] after.cards[i],
            ) && after.cards[i].id < after.next_card_id by {
                if i < before.cards.len() {
                    assert(after.cards[i] == before.cards[i]);
                }
            }
            assert forall|i: int, j: int| 0 <= i < j < after.cards.len() implies (
            #[trigger] after.cards[i]).id != (#[trigger] after.cards[j]).id
                && after.cards[i].account_id != after.cards[j].account_id by {
                assert(after.cards[i] == before.cards[i]);
                if j < before.cards.len() {
                    assert(after.cards[j] == before.cards[j]);
                }
            }
            assert forall|x: int| has_card(before.cards, x) implies has_card(after.cards, x) by {
                let i = choose|i: int|
                    0 <= i < before.cards.len() && (#[trigger] before.cards[i]).id == x;
                assert(after.cards[i].id == x);
            }
        }
        Ok(settings)
    }

    /// Changes the settings of a card.
    pub fn update_credit_card_settings(
        &mut self,
        ledger: &Ledger,
        input: UpdateCreditCardSettingsInput,
    ) -> (r: Result<CreditCardSettings, EngineError>)
        requires
            old(self).wf(),
            ledger.wf(),
        ensures
            final(self).wf(),
            match r {
                Ok(c) => {
                    &&& update_card_error(old(self)@, ledger@, input) is None
                    &&& exists|k: int|
                        0 <= k < old(self)@.cards.len() && (#[trigger] old(self)@.cards[k]).id
                            == input.id && c == amended_settings(old(self)@.cards[k], input)
                            && final(self)@ == (CardBookView {
                            cards: old(self)@.cards.update(k, c),
                            ..old(self)@
                        })
                },
                Err(e) => update_card_error(old(self)@, ledger@, input) == Some(e)
                    && final(self)@ == old(self)@,
            },
    {
        let k = match self.find_card(input.id) {
            Some(k) => k,
            None => {
                return Err(EngineError::CardNotFound);
            },
        };
        let current = self.cards[k];
        let mut updated = current;
        match input.credit_limit {
            Some(limit) => {
                if limit < 0 {
                    return Err(EngineError::NegativeCreditLimit);
                }
                if limit > MAX_AMOUNT {
                    return Err(EngineError::AmountOutOfRange);
                }
                updated.credit_limit = limit;
            },
            None => {},
        }
        match input.statement_day {
            Some(day) => {
                if day < 1 || day > 28 {
                    return Err(EngineError::InvalidStatementDay);
                }
                updated.statement_day = day as u32;
            },
            None => {},
        }
        match input.payment_due_day {
            Some(day) => {
                if day < 1 || day > 28 {
                    return Err(EngineError::InvalidDueDay);
                }
                updated.payment_due_day = day as u32;
            },
            None => {},
        }
        match input.minimum_payment_percentage {
            Some(p) => {
                if p > 10000 {
                    return Err(EngineError::InvalidPercentage);
                }
                updated.minimum_payment_percentage = p;
            },
            None => {},
        }
        match input.auto_settlement_enabled {
            Some(enabled) => {
                updated.auto_settlement_enabled = enabled;
            },
            None => {},
        }
        match CardBook::check_settlement_account(ledger, input.settlement_account_id, None) {
            Ok(_) => {},
            Err(e) => {
                return Err(e);
            },
        }
        match input.settlement_account_id {
            Some(id) => {
                updated.settlement_account_id = Some(id);
            },
            None => {},
        }
        if input.credit_limit.is_none() && input.statement_day.is_none()
            && input.payment_due_day.is_none() && input.minimum_payment_percentage.is_none()
            && input.auto_settlement_enabled.is_none() && input.settlement_account_id.is_none() {
            return Err(EngineError::NothingToUpdate);
        }
        assert(updated == amended_settings(current, input));
        let ghost before = self@;
        self.cards.set(k, updated);
        proof {
            let after = self@;
            assert(after.cards =~= before.cards.update(k as int, updated));
            assert forall|i: int| 0 <= i < after.cards.len() implies (#[trigger] after.cards[i]).id
                == before.cards[i].id && after.cards[i].account_id
                == before.cards[i].account_id by {}
            assert forall|x: int| has_card(before.cards, x) implies has_card(after.cards, x) by {
                let i = choose|i: int|
                    0 <= i < before.cards.len() && (#[trigger] before.cards[i]).id == x;
                assert(after.cards[i].id == x);
            }
        }
        Ok(updated)
    }

    /// Deletes the settings of a card. A card with statements is kept,
    /// and the request refused.
    pub fn delete_credit_card_settings(&mut self, settings_id: i64) -> (r: Result<
        (),
        EngineError,
    >)
        requires
            old(self).wf(),
        ensures
            final(self).wf(),
            match r {
                Ok(_) => !card_has_statements(old(self)@.statements, settings_id as int)
                    && exists|k: int|
                    0 <= k < old(self)@.cards.len() && (#[trigger] old(self)@.cards[k]).id
                        == settings_id && final(self)@ == (CardBookView {
                        cards: old(self)@.cards.remove(k),
                        ..old(self)@
                    }),
                Err(e) => final(self)@ == old(self)@ && (if card_has_statements(
                    old(self)@.statements,
                    settings_id as int,
                ) {
                    e == EngineError::CardHasStatements
                } else {
                    e == EngineError::CardNotFound && !has_card(
                        old(self)@.cards,
                        settings_id as int,
                    )
                }),
            },
    {
        if self.has_statements(settings_id) {
            return Err(EngineError::CardHasStatements);
        }
        let k = match self.find_card(settings_id) {
            Some(k) => k,
            None => {
                return Err(EngineError::CardNotFound);
            },
        };
        let ghost before = self@;
        self.cards.remove(k);
        proof {
            let after = self@;
            assert forall|i: int| 0 <= i < after.cards.len() implies (#[trigger] after.cards[i])
                == before.cards[if i < k {
                i
            } else {
                i + 1
            }] by {}
            assert forall|i: int, j: int| 0 <= i < j < after.cards.len() implies (
            #[trigger] after.cards[i]).id != (#[trigger] after.cards[j]).id
                && after.cards[i].account_id != after.cards[j].account_id by {
                let i0 = if i < k {
                    i
                } else {
                    i + 1
                };
                let j0 = if j < k {
                    j
                } else {
                    j + 1
                };
                assert(after.cards[i] == before.cards[i0]);
                assert(after.cards[j] == before.cards[j0]);
            }
            assert forall|i: int| 0 <= i < after.statements.len() implies has_card(
                after.cards,
                (#[trigger] after.statements[i]).credit_card_id as int,
            ) by {
                let x = before.statements[i].credit_card_id as int;
                assert(has_card(before.cards, x));
                let w = choose|w: int|
                    0 <= w < before.cards.len() && (#[trigger] before.cards[w]).id == x;
                assert(w != k);
                if w < k {
                    assert(after.cards[w].id == x);
                } else {
                    assert(after.cards[w - 1].id == x);
                }
            }
        }
        Ok(())
    }

    /// The place of the statement of a card whose cycle ended last.
    pub fn find_latest_statement(&self, card_id: i64) -> (r: Option<usize>)
        ensures
            match r {
                Some(i) => latest_statement(self@.statements, card_id as int) == Some(i as int)
                    && i < self@.statements.len(),
                None => latest_statement(self@.statements, card_id as int) is None,
            },
    {
        let mut best: Option<usize> = None;
        let mut i: usize = 0;
        while i < self.statements.len()
            invariant
                i <= self.statements.len(),
                match best {
                    Some(b) => b < i && latest_statement(
                        self.statements@.take(i as int),
                        card_id as int,
                    ) == Some(b as int),
                    None => latest_statement(self.statements@.take(i as int), card_id as int)
                        is None,
                },
            decreases self.statements.len() - i,
        {
            proof {
                assert(self.statements@.take(i + 1).drop_last() =~= self.statements@.take(
                    i as int,
                ));
            }
            let s = &self.statements[i];
            if s.credit_card_id == card_id {
                match best {
                    None => {
                        best = Some(i);
                    },
                    Some(b) => {
                        if self.statements[b].cycle_end_date.is_before(&s.cycle_end_date) {
                            best = Some(i);
                        }
                    },
                }
            }
            i += 1;
        }
        proof {
            assert(self.statements@.take(i as int) =~= self.statements@);
        }
        best
    }

    /// Whether a statement is stored for the card and the cycle.
    pub fn is_cycle_stored(&self, card_id: i64, start: Date, end: Date) -> (b: bool)
        ensures
            b == cycle_stored(self@.statements, card_id as int, start, end),
    {
        let mut i: usize = 0;
        while i < self.statements.len()
            invariant
                i <= self.statements.len(),
                forall|k: int|
                    0 <= k < i ==> !((#[trigger] self.statements@[k]).credit_card_id == card_id
                        && self.statements@[k].cycle_start_date == start
                        && self.statements@[k].cycle_end_date == end),
            decreases self.statements.len() - i,
        {
            let s = &self.statements[i];
            if s.credit_card_id == card_id && s.cycle_start_date == start && s.cycle_end_date
                == end {
                return true;
            }
            i += 1;
        }
        false
    }

    /// Closes the billing cycle in which `today` lies and stores its
    /// statement. A cycle has one statement: a second one is refused.
    pub fn generate_statement(&mut self, ledger: &Ledger, settings_id: i64, today: Date) -> (r:
        Result<CreditCardStatement, EngineError>)
        requires
            old(self).wf(),
            ledger.wf(),
            today.valid(),
        ensures
            final(self).wf(),
            match r {
                Ok(s) => generate_error(old(self)@, ledger@.postings, settings_id as int, today)
                    is None && s == statement_for(
                    old(self)@,
                    ledger@.postings,
                    old(self)@.cards[card_index(old(self)@.cards, settings_id as int)],
                    today,
                ) && final(self)@ == (CardBookView {
                    statements: old(self)@.statements.push(s),
                    next_statement_id: old(self)@.next_statement_id + 1,
                    ..old(self)@
                }),
                Err(e) => generate_error(old(self)@, ledger@.postings, settings_id as int, today)
                    == Some(e) && final(self)@ == old(self)@,
            },
    {
        let k = match self.find_card(settings_id) {
            Some(k) => k,
            None => {
                return Err(EngineError::CardNotFound);
            },
        };
        proof {
            lemma_card_index(self@, k as int);
        }
        let card = self.cards[k];
        let (cycle_start, cycle_end) = compute_current_cycle_dates(today, card.statement_day);
        if self.is_cycle_stored(settings_id, cycle_start, cycle_end) {
            return Err(EngineError::DuplicateStatement);
        }
        let scope = Scope::Between(cycle_start, cycle_end);
        let spent = sum_charges(ledger, card.account_id, scope);
        let paid = sum_payments(ledger, card.account_id, scope);
        let opening = match self.find_latest_statement(settings_id) {
            Some(i) => self.statements[i].closing_balance,
            None => calculate_balance_before_date(ledger, card.account_id, &cycle_start),
        };
        let closing = opening + spent - paid;
        if closing > STATEMENT_LIMIT || closing < -STATEMENT_LIMIT {
            return Err(EngineError::Overflow);
        }
        if self.statements.len() >= MAX_ROWS || self.next_statement_id > MAX_ID {
            return Err(EngineError::CapacityExceeded);
        }
        assert(-STATEMENT_LIMIT * 10000 <= closing * card.minimum_payment_percentage
            <= STATEMENT_LIMIT * 10000) by (nonlinear_arith)
            requires
                -STATEMENT_LIMIT <= closing <= STATEMENT_LIMIT,
                0 <= card.minimum_payment_percentage <= 10000,
        ;
        let share = round_div(closing * (card.minimum_payment_percentage as i128), 10000);
        let minimum = if share > 0 {
            share
        } else {
            0
        };
        let due_date = compute_due_date(cycle_end, card.payment_due_day);
        let id = self.next_statement_id;
        let statement = CreditCardStatement {
            id,
            credit_card_id: card.id,
            statement_date: cycle_end,
            due_date,
            cycle_start_date: cycle_start,
            cycle_end_date: cycle_end,
            opening_balance: opening,
            total_charges: spent,
            total_payments: paid,
            closing_balance: closing,
            minimum_payment: minimum,
            status: StatementStatus::Closed,
            paid_amount: 0,
            paid_date: None,
        };
        let ghost before = self@;
        self.statements.push(statement);
        self.next_statement_id = id + 1;
        proof {
            let after = self@;
            assert forall|i: int| 0 <= i < after.statements.len() implies statement_ok(
                #[trigger] after.statements[i],
            ) && after.statements[i].id < after.next_statement_id && has_card(
                after.cards,
                after.statements[i].credit_card_id as int,
            ) by {
                if i < before.statements.len() {
                    assert(after.statements[i] == before.statements[i]);
                }
            }
            assert forall|i: int, j: int| 0 <= i < j < after.statements.len() implies (
            #[trigger] after.statements[i]).id != (#[trigger] after.statements[j]).id
                && !same_cycle(after.statements[i], after.statements[j]) by {
                assert(after.statements[i] == before.statements[i]);
                if j < before.statements.len() {
                    assert(after.statements[j] == before.statements[j]);
                }
            }
        }
        Ok(statement)
    }

    /// The running billing cycle of a card, with the day on which its
    /// statement will be due and the days that are left of it.
    pub fn get_current_billing_cycle(&self, settings_id: i64, today: Date) -> (r: Result<
        BillingCycleInfo,
        EngineError,
    >)
        requires
            self.wf(),
            today.valid(),
        ensures
            match r {
                Ok(info) => has_card(self@.cards, settings_id as int) && info == billing_cycle(
                    self@.cards[card_index(self@.cards, settings_id as int)],
                    today,
                ),
                Err(e) => e == EngineError::CardNotFound && !has_card(
                    self@.cards,
                    settings_id as int,
                ),
            },
    {
        let k = match self.find_card(settings_id) {
            Some(k) => k,
            None => {
                return Err(EngineError::CardNotFound);
            },
        };
        proof {
            lemma_card_index(self@, k as int);
        }
        let card = self.cards[k];
        let (cycle_start, cycle_end) = compute_current_cycle_dates(today, card.statement_day);
        let due_date = compute_due_date(cycle_end, card.payment_due_day);
        let days = cycle_end.days_since(&today);
        Ok(
            BillingCycleInfo {
                cycle_start_date: cycle_start,
                cycle_end_date: cycle_end,
                due_date,
                days_remaining: if days > 0 {
                    days
                } else {
                    0
                },
            },
        )
    }

    /// The place of the unpaid statement of a card that is due first.
    pub fn find_first_unpaid(&self, card_id: i64, include_partial: bool) -> (r: Option<usize>)
        ensures
            match r {
                Some(i) => first_unpaid(self@.statements, card_id as int, include_partial)
                    == Some(i as int) && i < self@.statements.len(),
                None => first_unpaid(self@.statements, card_id as int, include_partial) is None,
            },
    {
        let mut best: Option<usize> = None;
        let mut i: usize = 0;
        while i < self.statements.len()
            invariant
                i <= self.statements.len(),
                match best {
                    Some(b) => b < i && first_unpaid(
                        self.statements@.take(i as int),
                        card_id as int,
                        include_partial,
                    ) == Some(b as int),
                    None => first_unpaid(
                        self.statements@.take(i as int),
                        card_id as int,
                        include_partial,
                    ) is None,
                },
            decreases self.statements.len() - i,
        {
            proof {
                assert(self.statements@.take(i + 1).drop_last() =~= self.statements@.take(
                    i as int,
                ));
            }
            let s = &self.statements[i];
            let status_fits = match s.status {
                StatementStatus::Open => true,
                StatementStatus::Closed => true,
                StatementStatus::Partial => include_partial,
                StatementStatus::Paid => false,
            };
            if s.credit_card_id == card_id && status_fits {
                match best {
                    None => {
                        best = Some(i);
                    },
                    Some(b) => {
                        if s.due_date.is_before(&self.statements[b].due_date) {
                            best = Some(i);
                        }
                    },
                }
            }
            i += 1;
        }
        proof {
            assert(self.statements@.take(i as int) =~= self.statements@);
        }
        best
    }

    /// Takes the settings of a card back into the book under the
    /// identifier that they had.
    #[verifier::loop_isolation(false)]
    pub fn restore_card(&mut self, card: CreditCardSettings) -> (r: Result<(), EngineError>)
        requires
            old(self).wf(),
        ensures
            final(self).wf(),
            match r {
                Ok(_) => restore_card_error(old(self)@, card) is None && final(self)@ == (
                CardBookView {
                    cards: old(self)@.cards.push(card),
                    next_card_id: if card.id + 1 > old(self)@.next_card_id {
                        card.id + 1
                    } else {
                        old(self)@.next_card_id
                    },
                    ..old(self)@
                }),
                Err(e) => restore_card_error(old(self)@, card) == Some(e) && final(self)@ == old(self)@,
            },
    {
        if card.id < 1 || card.id > MAX_ID || card.credit_limit < 0 || card.credit_limit
            > MAX_AMOUNT || card.statement_day < 1 || card.statement_day > 28
            || card.payment_due_day < 1 || card.payment_due_day > 28
            || card.minimum_payment_percentage > 10000 {
            return Err(EngineError::InvalidRecord);
        }
        let mut i: usize = 0;
        while i < self.cards.len()
            invariant
                i <= self.cards.len(),
                forall|k: int|
                    0 <= k < i ==> (#[trigger] self.cards@[k]).id != card.id
                        && self.cards@[k].account_id != card.account_id,
            decreases self.cards.len() - i,
        {
            if self.cards[i].id == card.id || self.cards[i].account_id == card.account_id {
                return Err(EngineError::DuplicateId);
            }
            i += 1;
        }
        if self.cards.len() >= MAX_ROWS {
            return Err(EngineError::CapacityExceeded);
        }
        let ghost before = self@;
        self.cards.push(card);
        if card.id >= self.next_card_id {
            self.next_card_id = card.id + 1;
        }
        proof {
            let after = self@;
            assert forall|i: int, j: int| 0 <= i < j < after.cards.len() implies (
            #[trigger] after.cards[i]).id != (#[trigger] after.cards[j]).id
                && after.cards[i].account_id != after.cards[j].account_id by {
                assert(after.cards[i] == before.cards[i]);
                if j < before.cards.len() {
                    assert(after.cards[j] == before.cards[j]);
                }
            }
            assert forall|x: int| has_card(before.cards, x) implies has_card(after.cards, x) by {
                let i = choose|i: int|
                    0 <= i < before.cards.len() && (#[trigger] before.cards[i]).id == x;
                assert(after.cards[i].id == x);
            }
        }
        Ok(())
    }

    /// Takes a statement back into the book under the identifier that it
    /// had.
    #[verifier::loop_isolation(false)]
    pub fn restore_statement(&mut self, statement: CreditCardStatement) -> (r: Result<
        (),
        EngineError,
    >)
        requires
            old(self).wf(),
        ensures
            final(self).wf(),
            match r {
                Ok(_) => restore_statement_error(old(self)@, statement) is None && final(self)@
                    == (CardBookView {
                    statements: old(self)@.statements.push(statement),
                    next_statement_id: if statement.id + 1 > old(self)@.next_statement_id {
                        statement.id + 1
                    } else {
                        old(self)@.next_statement_id
                    },
                    ..old(self)@
                }),
                Err(e) => restore_statement_error(old(self)@, statement) == Some(e)
                    && final(self)@ == old(self)@,
            },
    {
        if statement.id < 1 || statement.id > MAX_ID || statement.closing_balance
            < -STATEMENT_LIMIT || statement.closing_balance > STATEMENT_LIMIT
            || statement.paid_amount < 0 || statement.paid_amount > STATEMENT_LIMIT {
            return Err(EngineError::InvalidRecord);
        }
        if self.find_card(statement.credit_card_id).is_none() {
            return Err(EngineError::CardNotFound);
        }
        let mut i: usize = 0;
        while i < self.statements.len()
            invariant
                i <= self.statements.len(),
                forall|k: int|
                    0 <= k < i ==> (#[trigger] self.statements@[k]).id != statement.id
                        && !same_cycle(self.statements@[k], statement),
            decreases self.statements.len() - i,
        {
            let s = &self.statements[i];
            if s.id == statement.id || (s.credit_card_id == statement.credit_card_id
                && s.cycle_start_date == statement.cycle_start_date && s.cycle_end_date
                == statement.cycle_end_date) {
                return Err(EngineError::DuplicateId);
            }
            i += 1;
        }
        if self.statements.len() >= MAX_ROWS {
            return Err(EngineError::CapacityExceeded);
        }
        let ghost before = self@;
        self.statements.push(statement);
        if statement.id >= self.next_statement_id {
            self.next_statement_id = statement.id + 1;
        }
        proof {
            let after = self@;
            assert forall|i: int, j: int| 0 <= i < j < after.statements.len() implies (
            #[trigger] after.statements[i]).id != (#[trigger] after.statements[j]).id
                && !same_cycle(after.statements[i], after.statements[j]) by {
                assert(after.statements[i] == before.statements[i]);
                if j < before.statements.len() {
                    assert(after.statements[j] == before.statements[j]);
                }
            }
        }
        Ok(())
    }
}

/// Whether a card has already settled itself on the day.
pub fn is_already_settled(
    ledger: &Ledger,
    settlement_account: i64,
    card_account: i64,
    today: Date,
) -> (b: bool)
    ensures
        b == already_settled(
            ledger@.postings,
            settlement_account as int,
            card_account as int,
            today,
        ),
{
    let postings = ledger.postings();
    let mut i: usize = 0;
    while i < postings.len()
        invariant
            i <= postings.len(),
            postings@ == ledger@.postings,
            forall|k: int|
                0 <= k < i ==> !is_auto_settlement(
                    (#[trigger] postings@[k]).transaction,
                    settlement_account as int,
                    card_account as int,
                    today,
                ),
        decreases postings.len() - i,
    {
        let t = &postings[i].transaction;
        let is_transfer = match t.transaction_type {
            TransactionType::Transfer => true,
            _ => false,
        };
        let to_card = match t.to_account_id {
            Some(to) => to == card_account,
            None => false,
        };
        if is_transfer && to_card && t.account_id == settlement_account && t.date == today
            && t.auto_settlement {
            return true;
        }
        i += 1;
    }
    false
}

/// What the card at place `k` pays by itself on the day, if anything.
pub fn auto_settlement_amount(book: &CardBook, ledger: &Ledger, k: usize, today: Date) -> (r:
    Option<i128>)
    requires
        book.wf(),
        k < book@.cards.len(),
    ensures
        match r {
            Some(a) => auto_settlement_due(book@, ledger@.postings, book@.cards[k as int], today)
                == Some(a as int) && 0 < a <= STATEMENT_LIMIT * 2,
            None => auto_settlement_due(book@, ledger@.postings, book@.cards[k as int], today)
                is None,
        },
{
    let card = book.cards()[k];
    if !card.auto_settlement_enabled {
        return None;
    }
    let settlement_account = match card.settlement_account_id {
        Some(id) => id,
        None => {
            return None;
        },
    };
    if today.day != card.payment_due_day {
        return None;
    }
    if is_already_settled(ledger, settlement_account, card.account_id, today) {
        return None;
    }
    match book.find_first_unpaid(card.id, false) {
        None => None,
        Some(i) => {
            let s = &book.statements()[i];
            assert(statement_ok(*s));
            let remaining = s.closing_balance - s.paid_amount;
            if remaining > 0 {
                Some(remaining)
            } else {
                None
            }
        },
    }
}

/// Pays a card: posts a transfer from the paying account to the card's
/// account and applies the amount to the statements of the card, the one
/// that is due first before the others. `auto` marks a settlement that
/// the card makes by itself.
pub fn settle(
    book: &mut CardBook,
    ledger: &mut Ledger,
    input: SettlementInput,
    today: Date,
    auto: bool,
) -> (r: Result<i64, EngineError>)
    requires
        old(book).wf(),
        old(ledger).wf(),
    ensures
        final(book).wf(),
        final(ledger).wf(),
        match r {
            Ok(id) => settle_error(old(book)@, old(ledger)@, input, today, auto) is None
                && settled(
                old(book)@,
                old(ledger)@,
                final(book)@,
                final(ledger)@,
                id as int,
                input,
                today,
                auto,
            ),
            Err(e) => settle_error(old(book)@, old(ledger)@, input, today, auto) == Some(e)
                && final(book)@ == old(book)@ && final(ledger)@ == old(ledger)@,
        },
{
    let k = match book.find_card(input.credit_card_settings_id) {
        Some(k) => k,
        None => {
            return Err(EngineError::CardNotFound);
        },
    };
    proof {
        lemma_card_index(book@, k as int);
    }
    let card = book.cards()[k];
    let payer = match ledger.find_account(input.payment_account_id) {
        Some(p) => p,
        None => {
            return Err(EngineError::PaymentAccountNotFound);
        },
    };
    proof {
        lemma_account_index(ledger@.accounts, payer as int);
    }
    let pays_from_asset = match ledger.accounts()[payer].account_type {
        AccountType::Asset => true,
        AccountType::Liability => false,
    };
    if !pays_from_asset {
        return Err(EngineError::PaymentNotAsset);
    }
    if input.payment_account_id == card.account_id {
        return Err(EngineError::PaymentFromCard);
    }
    let place = match ledger.find_account(card.account_id) {
        Some(a) => a,
        None => {
            return Err(EngineError::AccountNotFound);
        },
    };
    proof {
        lemma_account_index(ledger@.accounts, place as int);
    }
    let amount: i128 = match input.amount {
        Some(a) => {
            if a <= 0 {
                return Err(EngineError::NonPositiveAmount);
            }
            a as i128
        },
        None => {
            let raw = balance_at(ledger, place, Scope::All);
            if raw >= 0 {
                return Err(EngineError::NothingToPay);
            }
            -raw
        },
    };
    if amount > MAX_AMOUNT as i128 {
        return Err(EngineError::AmountOutOfRange);
    }
    let date = match input.date {
        Some(d) => d,
        None => today,
    };
    let mut memo = if auto {
        "Auto-settlement - ".to_owned()
    } else {
        "Credit card payment - ".to_owned()
    };
    push_number(&mut memo, card.account_id);
    let draft = TransactionDraft {
        date,
        transaction_type: TransactionType::Transfer,
        amount: amount as i64,
        account_id: input.payment_account_id,
        to_account_id: Some(card.account_id),
        category_id: None,
        memo: Some(memo),
        photo_path: None,
        auto_settlement: auto,
    };
    let id = match ledger.post(draft) {
        Ok(id) => id,
        Err(e) => {
            return Err(e);
        },
    };
    book.update_statement_payment_status(card.id, amount as i64, date);
    Ok(id)
}

/// Pays a card from an asset account: the amount that is given, or all
/// that is owed on the card.
pub fn settle_credit_card(
    book: &mut CardBook,
    ledger: &mut Ledger,
    input: SettlementInput,
    today: Date,
) -> (r: Result<i64, EngineError>)
    requires
        old(book).wf(),
        old(ledger).wf(),
    ensures
        final(book).wf(),
        final(ledger).wf(),
        match r {
            Ok(id) => settle_error(old(book)@, old(ledger)@, input, today, false) is None
                && settled(
                old(book)@,
                old(ledger)@,
                final(book)@,
                final(ledger)@,
                id as int,
                input,
                today,
                false,
            ),
            Err(e) => settle_error(old(book)@, old(ledger)@, input, today, false) == Some(e)
                && final(book)@ == old(book)@ && final(ledger)@ == old(ledger)@,
        },
{
    settle(book, ledger, input, today, false)
}

/// The request by which a card pays an amount by itself on a day.
pub open spec fn auto_input(card: CreditCardSettings, amount: int, today: Date) -> SettlementInput {
    SettlementInput {
        credit_card_settings_id: card.id,
        payment_account_id: card.settlement_account_id.unwrap(),
        amount: Some(amount as i64),
        date: Some(today),
    }
}

/// Whether the card at place `k` settles itself on the day: something is
/// due, it is an amount that can be posted, and the settlement is not
/// refused.
pub open spec fn settles_itself(book: CardBookView, ledger: LedgerView, k: int, today: Date)
    -> bool {
    let card = book.cards[k];
    let due = auto_settlement_due(book, ledger.postings, card, today);
    due is Some && due.unwrap() <= MAX_AMOUNT && settle_error(
        book,
        ledger,
        auto_input(card, due.unwrap(), today),
        today,
        true,
    ) is None
}

/// What the turn of the card at place `k` makes of book, ledger and the
/// list of posted identifiers: a card that settles itself leaves its
/// settlement behind, and the identifier of its transfer at the end of
/// the list; every other card leaves all three as they were.
pub open spec fn auto_step(
    book: CardBookView,
    ledger: LedgerView,
    ids: Seq<i64>,
    book_after: CardBookView,
    ledger_after: LedgerView,
    ids_after: Seq<i64>,
    k: int,
    today: Date,
) -> bool {
    if settles_itself(book, ledger, k, today) {
        let card = book.cards[k];
        let due = auto_settlement_due(book, ledger.postings, card, today).unwrap();
        &&& ids_after.len() == ids.len() + 1
        &&& ids_after.drop_last() == ids
        &&& settled(
            book,
            ledger,
            book_after,
            ledger_after,
            ids_after.last() as int,
            auto_input(card, due, today),
            today,
            true,
        )
    } else {
        book_after == book && ledger_after == ledger && ids_after == ids
    }
}

/// A card settles itself once a day: after the settlement that the card
/// at place `k` made by itself on a day, nothing is due from it on that
/// day any more.
pub proof fn lemma_settles_once(
    book: CardBookView,
    ledger: LedgerView,
    book_after: CardBookView,
    ledger_after: LedgerView,
    k: int,
    today: Date,
    id: int,
)
    requires
        book.wf(),
        0 <= k < book.cards.len(),
        settles_itself(book, ledger, k, today),
        settled(
            book,
            ledger,
            book_after,
            ledger_after,
            id,
            auto_input(
                book.cards[k],
                auto_settlement_due(book, ledger.postings, book.cards[k], today).unwrap(),
                today,
            ),
            today,
            true,
        ),
    ensures
        auto_settlement_due(book_after, ledger_after.postings, book_after.cards[k], today) is None,
        !settles_itself(book_after, ledger_after, k, today),
{
    let card = book.cards[k];
    lemma_card_index(book, k);
    let last = ledger_after.postings.len() - 1;
    let t = ledger_after.postings[last].transaction;
    assert(t == ledger_after.postings.last().transaction);
    assert(is_auto_settlement(
        t,
        card.settlement_account_id.unwrap() as int,
        card.account_id as int,
        today,
    ));
    assert(already_settled(
        ledger_after.postings,
        card.settlement_account_id.unwrap() as int,
        card.account_id as int,
        today,
    ));
}

/// Book, ledger and list of posted identifiers as they stand between two
/// turns.
pub struct TurnState {
    pub book: CardBookView,
    pub ledger: LedgerView,
    pub ids: Seq<i64>,
}

/// The states are those that the turns of the first `n` cards leave, one
/// after the other in the order of the book: each state comes of the one
/// before it by the turn of the next card.
pub open spec fn turns_taken(states: Seq<TurnState>, n: int, today: Date) -> bool {
    &&& states.len() == n + 1
    &&& forall|k: int|
        0 <= k < n ==> auto_step(
            (#[trigger] states[k]).book,
            states[k].ledger,
            states[k].ids,
            states[k + 1].book,
            states[k + 1].ledger,
            states[k + 1].ids,
            k,
            today,
        )
}

/// Book, ledger and list of identifiers after the turns of the first `n`
/// cards, one after the other in the order of the book, each taking up
/// what the turn before it left; the first takes up the book and the
/// ledger as they were given, and an empty list.
pub open spec fn auto_run(
    book: CardBookView,
    ledger: LedgerView,
    book_after: CardBookView,
    ledger_after: LedgerView,
    ids_after: Seq<i64>,
    n: int,
    today: Date,
) -> bool {
    exists|states: Seq<TurnState>| #[trigger]
        turns_taken(states, n, today) && states[0] == (TurnState {
            book,
            ledger,
            ids: Seq::empty(),
        }) && states[n] == (TurnState { book: book_after, ledger: ledger_after, ids: ids_after })
}

/// On its due day, every card that settles itself pays what is owed on
/// its open or closed statement that is due first, once a day. A card
/// whose settlement fails is passed over and does not stop the others.
/// Gives the identifiers of the transactions that were posted.
pub fn process_auto_settlements(book: &mut CardBook, ledger: &mut Ledger, today: Date) -> (r: Vec<
    i64,
>)
    requires
        old(book).wf(),
        old(ledger).wf(),
    ensures
        final(book).wf(),
        final(ledger).wf(),
        auto_run(
            old(book)@,
            old(ledger)@,
            final(book)@,
            final(ledger)@,
            r@,
            old(book)@.cards.len() as int,
            today,
        ),
        final(book)@.cards == old(book)@.cards,
        final(book)@.statements.len() == old(book)@.statements.len(),
        final(ledger)@.accounts == old(ledger)@.accounts,
        final(ledger)@.categories == old(ledger)@.categories,
        r@.len() <= old(book)@.cards.len(),
        final(ledger)@.postings.len() == old(ledger)@.postings.len() + r@.len(),
        final(ledger)@.postings.take(old(ledger)@.postings.len() as int) == old(ledger)@.postings,
        forall|j: int|
            0 <= j < r@.len() ==> auto_posted(
                final(ledger)@.postings,
                old(ledger)@.postings.len() + j,
                #[trigger] r@[j],
                today,
            ),
        old(book)@.cards.len() > 0 ==> (r@.len() > 0 ==> exists|k: int|
            0 <= k < old(book)@.cards.len() && old(book)@.cards[k].auto_settlement_enabled
                && #[trigger] old(book)@.cards[k].payment_due_day == today.day),
{
    let ghost book0 = book@;
    let ghost ledger0 = ledger@;
    let ghost base = ledger@.postings.len() as int;
    let mut out: Vec<i64> = Vec::new();
    let count = book.cards().len();
    let ghost mut states: Seq<TurnState> = seq![
        TurnState { book: book0, ledger: ledger0, ids: Seq::empty() },
    ];
    let mut k: usize = 0;
    while k < count
        invariant
            k <= count,
            count == book0.cards.len(),
            book.wf(),
            ledger.wf(),
            book0 == old(book)@,
            ledger0 == old(ledger)@,
            base == ledger0.postings.len(),
            book@.cards == book0.cards,
            book@.statements.len() == book0.statements.len(),
            ledger@.accounts == ledger0.accounts,
            ledger@.categories == ledger0.categories,
            turns_taken(states, k as int, today),
            states[0] == (TurnState { book: book0, ledger: ledger0, ids: Seq::empty() }),
            states[k as int] == (TurnState { book: book@, ledger: ledger@, ids: out@ }),
            out@.len() <= k,
            ledger@.postings.len() == base + out@.len(),
            ledger@.postings.take(base) == ledger0.postings,
            forall|j: int|
                0 <= j < out@.len() ==> auto_posted(
                    ledger@.postings,
                    base + j,
                    #[trigger] out@[j],
                    today,
                ),
            out@.len() > 0 ==> exists|c: int|
                0 <= c < book0.cards.len() && book0.cards[c].auto_settlement_enabled
                    && #[trigger] book0.cards[c].payment_due_day == today.day,
        decreases count - k,
    {
        let card = book.cards()[k];
        let ghost book_before = book@;
        let ghost ledger_before = ledger@;
        let ghost ids_before = out@;
        match auto_settlement_amount(book, ledger, k, today) {
            None => {},
            Some(amount) => {
                if amount <= MAX_AMOUNT as i128 {
                    let input = SettlementInput {
                        credit_card_settings_id: card.id,
                        payment_account_id: card.settlement_account_id.unwrap(),
                        amount: Some(amount as i64),
                        date: Some(today),
                    };
                    let ghost before = ledger@;
                    let ghost shown = out@;
                    match settle(book, ledger, input, today, true) {
                        Ok(id) => {
                            out.push(id);
                            proof {
                                let after = ledger@;
                                assert(after.postings.drop_last() == before.postings);
                                assert(after.postings.take(base) =~= before.postings.take(base));
                                assert(before.postings.len() == base + shown.len());
                                assert(out@ == shown.push(id));
                                assert forall|j: int| 0 <= j < out@.len() implies auto_posted(
                                    after.postings,
                                    base + j,
                                    #[trigger] out@[j],
                                    today,
                                ) by {
                                    if j < shown.len() {
                                        assert(out@[j] == shown[j]);
                                        assert(auto_posted(
                                            before.postings,
                                            base + j,
                                            shown[j],
                                            today,
                                        ));
                                        assert(after.postings.drop_last()[base + j]
                                            == after.postings[base + j]);
                                    } else {
                                        assert(after.postings[base + j] == after.postings.last());
                                    }
                                }
                                assert(book0.cards[k as int].payment_due_day == today.day);
                                assert(out@.drop_last() =~= ids_before);
                                assert(input == auto_input(
                                    book_before.cards[k as int],
                                    amount as int,
                                    today,
                                ));
                                assert(settles_itself(book_before, ledger_before, k as int, today));
                            }
                        },
                        Err(_) => {},
                    }
                }
            },
        }
        proof {
            assert(auto_step(
                book_before,
                ledger_before,
                ids_before,
                book@,
                ledger@,
                out@,
                k as int,
                today,
            ));
            let earlier = states;
            states = earlier.push(TurnState { book: book@, ledger: ledger@, ids: out@ });
            assert forall|j: int| 0 <= j < k + 1 implies auto_step(
                (#[trigger] states[j]).book,
                states[j].ledger,
                states[j].ids,
                states[j + 1].book,
                states[j + 1].ledger,
                states[j + 1].ids,
                j,
                today,
            ) by {
                assert(states[j] == earlier[j]);
                if j < k {
                    assert(states[j + 1] == earlier[j + 1]);
                }
            }
        }
        k += 1;
    }
    proof {
        assert(turns_taken(states, count as int, today));
    }
    out
}

/// A card with its figures on a day.
pub fn get_credit_card_details(
    book: &CardBook,
    ledger: &Ledger,
    settings_id: i64,
    today: Date,
) -> (r: Result<CreditCardWithDetails, EngineError>)
    requires
        book.wf(),
        ledger.wf(),
        today.valid(),
    ensures
        match r {
            Ok(d) => has_card(book@.cards, settings_id as int) && has_account(
                ledger@.accounts,
                book@.cards[card_index(book@.cards, settings_id as int)].account_id as int,
            ) && d == details_of(
                ledger@,
                book@.cards[card_index(book@.cards, settings_id as int)],
                today,
            ),
            Err(e) => if !has_card(book@.cards, settings_id as int) {
                e == EngineError::CardNotFound
            } else {
                e == EngineError::AccountNotFound && !has_account(
                    ledger@.accounts,
                    book@.cards[card_index(book@.cards, settings_id as int)].account_id as int,
                )
            },
        },
{
    let k = match book.find_card(settings_id) {
        Some(k) => k,
        None => {
            return Err(EngineError::CardNotFound);
        },
    };
    proof {
        lemma_card_index(book@, k as int);
    }
    let card = book.cards()[k];
    match calculate_card_balances(ledger, &card, today) {
        Ok(balances) => Ok(CreditCardWithDetails { settings: card, balances }),
        Err(e) => Err(e),
    }
}

/// Every card with its figures on a day, in the order of the book. One
/// card whose account is missing fails the whole request.
pub fn get_all_credit_cards(book: &CardBook, ledger: &Ledger, today: Date) -> (r: Result<
    Vec<CreditCardWithDetails>,
    EngineError,
>)
    requires
        book.wf(),
        ledger.wf(),
        today.valid(),
    ensures
        match r {
            Ok(v) => v@.len() == book@.cards.len() && forall|k: int|
                0 <= k < v@.len() ==> has_account(
                    ledger@.accounts,
                    book@.cards[k].account_id as int,
                ) && #[trigger] v@[k] == details_of(ledger@, book@.cards[k], today),
            Err(e) => e == EngineError::AccountNotFound && exists|k: int|
                0 <= k < book@.cards.len() && !has_account(
                    ledger@.accounts,
                    (#[trigger] book@.cards[k]).account_id as int,
                ),
        },
{
    let cards = book.cards();
    let mut out: Vec<CreditCardWithDetails> = Vec::new();
    let mut k: usize = 0;
    while k < cards.len()
        invariant
            k <= cards.len(),
            cards@ == book@.cards,
            book.wf(),
            ledger.wf(),
            today.valid(),
            out@.len() == k,
            forall|j: int|
                0 <= j < k ==> has_account(ledger@.accounts, book@.cards[j].account_id as int)
                    && #[trigger] out@[j] == details_of(ledger@, book@.cards[j], today),
        decreases cards.len() - k,
    {
        let card = cards[k];
        match calculate_card_balances(ledger, &card, today) {
            Ok(balances) => {
                out.push(CreditCardWithDetails { settings: card, balances });
            },
            Err(e) => {
                assert(!has_account(ledger@.accounts, book@.cards[k as int].account_id as int));
                return Err(e);
            },
        }
        k += 1;
    }
    Ok(out)
}

/// Every card as the dashboard shows it on a day, in the order of the
/// book. One card whose account is missing fails the whole request.
pub fn get_credit_card_summaries(book: &CardBook, ledger: &Ledger, today: Date) -> (r: Result<
    Vec<CreditCardSummary>,
    EngineError,
>)
    requires
        book.wf(),
        ledger.wf(),
        today.valid(),
    ensures
        match r {
            Ok(v) => v@.len() == book@.cards.len() && forall|k: int|
                0 <= k < v@.len() ==> has_account(
                    ledger@.accounts,
                    book@.cards[k].account_id as int,
                ) && #[trigger] v@[k] == summary_of(book@, ledger@, book@.cards[k], today),
            Err(e) => e == EngineError::AccountNotFound && exists|k: int|
                0 <= k < book@.cards.len() && !has_account(
                    ledger@.accounts,
                    (#[trigger] book@.cards[k]).account_id as int,
                ),
        },
{
    let cards = book.cards();
    let mut out: Vec<CreditCardSummary> = Vec::new();
    let mut k: usize = 0;
    while k < cards.len()
        invariant
            k <= cards.len(),
            cards@ == book@.cards,
            book.wf(),
            ledger.wf(),
            today.valid(),
            out@.len() == k,
            forall|j: int|
                0 <= j < k ==> has_account(ledger@.accounts, book@.cards[j].account_id as int)
                    && #[trigger] out@[j] == summary_of(book@, ledger@, book@.cards[j], today),
        decreases cards.len() - k,
    {
        let card = cards[k];
        let balances = match calculate_card_balances(ledger, &card, today) {
            Ok(b) => b,
            Err(e) => {
                assert(!has_account(ledger@.accounts, book@.cards[k as int].account_id as int));
                return Err(e);
            },
        };
        let (next_due_date, next_due_amount) = match book.find_first_unpaid(card.id, true) {
            Some(i) => {
                let s = &book.statements()[i];
                assert(statement_ok(*s));
                (Some(s.due_date), Some(s.closing_balance - s.paid_amount))
            },
            None => (None, None),
        };
        out.push(
            CreditCardSummary {
                account_id: card.account_id,
                total_balance: balances.total_balance,
                credit_limit: card.credit_limit,
                available_credit: balances.available_credit,
                next_due_date,
                next_due_amount,
                utilization_percentage: balances.utilization_percentage,
            },
        );
        k += 1;
    }
    Ok(out)
}

/// A statement with the transactions of its cycle.
#[derive(Debug)]
pub struct StatementWithTransactions {
    pub statement: CreditCardStatement,
    pub transactions: Vec<Transaction>,
}

/// The first `n` statements that belong to a card.
pub open spec fn statements_of(statements: Seq<CreditCardStatement>, card_id: int, n: int) -> Seq<
    CreditCardStatement,
>
    decreases n,
{
    if n <= 0 {
        Seq::empty()
    } else {
        let front = statements_of(statements, card_id, n - 1);
        if statements[n - 1].credit_card_id == card_id {
            front.push(statements[n - 1])
        } else {
            front
        }
    }
}

/// No statement closes a later cycle than one that stands before it.
pub open spec fn latest_first(rows: Seq<CreditCardStatement>) -> bool {
    forall|i: int, j: int|
        0 <= i < j < rows.len() ==> date_le(
            (#[trigger] rows[j]).cycle_end_date,
            (#[trigger] rows[i]).cycle_end_date,
        )
}

/// The statements of a card, the one of the latest cycle first.
pub fn get_statements(book: &CardBook, settings_id: i64) -> (r: Vec<CreditCardStatement>)
    ensures
        r@.to_multiset() == statements_of(
            book@.statements,
            settings_id as int,
            book@.statements.len() as int,
        ).to_multiset(),
        latest_first(r@),
{
    let statements = book.statements();
    let mut out: Vec<CreditCardStatement> = Vec::new();
    let mut i: usize = 0;
    proof {
        assert(statements_of(book@.statements, settings_id as int, 0) =~= out@);
    }
    while i < statements.len()
        invariant
            i <= statements.len(),
            statements@ == book@.statements,
            out@.to_multiset() == statements_of(
                book@.statements,
                settings_id as int,
                i as int,
            ).to_multiset(),
            latest_first(out@),
        decreases statements.len() - i,
    {
        let row = statements[i];
        if row.credit_card_id == settings_id {
            let mut at: usize = 0;
            while at < out.len() && row.cycle_end_date.is_before(&out[at].cycle_end_date)
                invariant
                    at <= out.len(),
                    forall|k: int|
                        0 <= k < at ==> date_lt(
                            row.cycle_end_date,
                            (#[trigger] out@[k]).cycle_end_date,
                        ),
                decreases out.len() - at,
            {
                at += 1;
            }
            let ghost before = out@;
            out.insert(at, row);
            proof {
                vstd::seq_lib::to_multiset_insert(before, at as int, row);
                vstd::seq_lib::to_multiset_build(
                    statements_of(book@.statements, settings_id as int, i as int),
                    row,
                );
                assert forall|a: int, b: int| 0 <= a < b < out@.len() implies date_le(
                    (#[trigger] out@[b]).cycle_end_date,
                    (#[trigger] out@[a]).cycle_end_date,
                ) by {
                    if b < at {
                        assert(out@[a] == before[a] && out@[b] == before[b]);
                    } else if b == at {
                        assert(out@[a] == before[a]);
                    } else if a < at {
                        assert(out@[a] == before[a] && out@[b] == before[b - 1]);
                    } else if a == at {
                        assert(out@[b] == before[b - 1]);
                        if at < b - 1 {
                            assert(date_le(
                                before[b - 1].cycle_end_date,
                                before[at as int].cycle_end_date,
                            ));
                        }
                    } else {
                        assert(out@[a] == before[a - 1] && out@[b] == before[b - 1]);
                    }
                }
            }
        }
        i += 1;
    }
    out
}

/// The settings of the card that is billed on an account, if there is
/// one.
pub fn get_credit_card_settings_by_account(book: &CardBook, account_id: i64) -> (r: Option<
    CreditCardSettings,
>)
    ensures
        match r {
            Some(c) => c.account_id == account_id && exists|i: int|
                0 <= i < book@.cards.len() && #[trigger] book@.cards[i] == c,
            None => !account_has_card(book@.cards, account_id as int),
        },
{
    let cards = book.cards();
    let mut i: usize = 0;
    while i < cards.len()
        invariant
            i <= cards.len(),
            cards@ == book@.cards,
            forall|k: int| 0 <= k < i ==> (#[trigger] cards@[k]).account_id != account_id,
        decreases cards.len() - i,
    {
        if cards[i].account_id == account_id {
            return Some(cards[i]);
        }
        i += 1;
    }
    None
}

/// The place of the statement with the given identifier.
pub fn find_statement(book: &CardBook, statement_id: i64) -> (r: Option<usize>)
    ensures
        match r {
            Some(i) => i < book@.statements.len() && book@.statements[i as int].id
                == statement_id,
            None => forall|k: int|
                0 <= k < book@.statements.len() ==> (#[trigger] book@.statements[k]).id
                    != statement_id,
        },
{
    let statements = book.statements();
    let mut i: usize = 0;
    while i < statements.len()
        invariant
            i <= statements.len(),
            statements@ == book@.statements,
            forall|k: int| 0 <= k < i ==> (#[trigger] statements@[k]).id != statement_id,
        decreases statements.len() - i,
    {
        if statements[i].id == statement_id {
            return Some(i);
        }
        i += 1;
    }
    None
}

/// A statement with the transactions of its cycle that name the card's
/// account, the oldest first.
pub fn get_statement_with_transactions(book: &CardBook, ledger: &Ledger, statement_id: i64) -> (r:
    Result<StatementWithTransactions, EngineError>)
    requires
        book.wf(),
    ensures
        match r {
            Ok(s) => exists|i: int|
                0 <= i < book@.statements.len() && (#[trigger] book@.statements[i]).id
                    == statement_id && s.statement == book@.statements[i] && listed_by_date(
                    s.transactions@,
                    account_transactions(
                        ledger@,
                        book@.cards[card_index(
                            book@.cards,
                            s.statement.credit_card_id as int,
                        )].account_id as int,
                        Scope::Between(s.statement.cycle_start_date, s.statement.cycle_end_date),
                        ledger@.postings.len() as int,
                    ),
                ),
            Err(e) => e == EngineError::StatementNotFound && forall|k: int|
                0 <= k < book@.statements.len() ==> (#[trigger] book@.statements[k]).id
                    != statement_id,
        },
{
    let i = match find_statement(book, statement_id) {
        Some(i) => i,
        None => {
            return Err(EngineError::StatementNotFound);
        },
    };
    let statement = book.statements()[i];
    let k = match book.find_card(statement.credit_card_id) {
        Some(k) => k,
        None => {
            assert(has_card(book@.cards, book@.statements[i as int].credit_card_id as int));
            assert(false);
            return Err(EngineError::StatementNotFound);
        },
    };
    proof {
        lemma_card_index(book@, k as int);
    }
    let transactions = get_account_transactions_by_date(
        ledger,
        book.cards()[k].account_id,
        Scope::Between(statement.cycle_start_date, statement.cycle_end_date),
    );
    Ok(StatementWithTransactions { statement, transactions })
}

/// The transactions of the running cycle of a card that name the card's
/// account, the newest first.
pub fn get_current_cycle_transactions(
    book: &CardBook,
    ledger: &Ledger,
    settings_id: i64,
    today: Date,
) -> (r: Result<Vec<Transaction>, EngineError>)
    requires
        book.wf(),
        today.valid(),
    ensures
        match r {
            Ok(v) => has_card(book@.cards, settings_id as int) && listed(
                v@,
                account_transactions(
                    ledger@,
                    book@.cards[card_index(book@.cards, settings_id as int)].account_id as int,
                    Scope::Between(
                        cycle_spec(
                            today,
                            book@.cards[card_index(book@.cards, settings_id as int)].statement_day,
                        ).0,
                        cycle_spec(
                            today,
                            book@.cards[card_index(book@.cards, settings_id as int)].statement_day,
                        ).1,
                    ),
                    ledger@.postings.len() as int,
                ),
            ),
            Err(e) => e == EngineError::CardNotFound && !has_card(
                book@.cards,
                settings_id as int,
            ),
        },
{
    let k = match book.find_card(settings_id) {
        Some(k) => k,
        None => {
            return Err(EngineError::CardNotFound);
        },
    };
    proof {
        lemma_card_index(book@, k as int);
    }
    let card = book.cards()[k];
    let (cycle_start, cycle_end) = compute_current_cycle_dates(today, card.statement_day);
    Ok(get_account_transactions(ledger, card.account_id, Scope::Between(cycle_start, cycle_end)))
}

} // verus!
