//! Reports over the journal: the performance of an account over a range
//! of days, the history of net worth, income and expense by period.

use crate::balance::{
    balance_at, balance_of, calc_net_worth_at, net_worth,
    total_assets, total_liabilities, Scope, BALANCE_LIMIT, TOTAL_LIMIT,
};
use crate::date::{
    date_le, date_lt, day_number, days_in_month, last_day_of_month, lemma_day_number_bounds,
    lemma_day_number_order, lemma_succ_day_number, month_end_spec, succ_spec, Date, MIN_YEAR,
};
use crate::ledger::{
    account_with_id, entries_for, has_account, lemma_account_index, posting_ok, transaction_ok,
    Ledger, LedgerView,
};
use crate::model::{
    Account, AccountType, EngineError, JournalEntry, PostedTransaction, Transaction,
    TransactionType, MAX_AMOUNT, MAX_ROWS,
};
use crate::money::{div_round, round_div};
use crate::networth::{change_percentage, change_percentage_spec};
use crate::sums::{
    lemma_prefix_sum_bounds, lemma_sum_bounds, lemma_sum_remove, lemma_sum_take_all,
    lemma_sum_take_step, lemma_sum_zero, seq_sum,
};
use vstd::prelude::*;

verus! {

/// The largest sum of the amounts of the transactions of a ledger.
pub const FLOW_LIMIT: i128 = 1_000_000_000_000_000_000_000_000;

/// The balance of an account on a day.
#[derive(Clone, Copy, Debug, PartialEq, Eq, Structural)]
pub struct AccountBalancePoint {
    pub date: Date,
    pub balance: i128,
}

/// The performance of an account over a range of days.
#[derive(Debug)]
pub struct AccountPerformance {
    pub account_id: i64,
    pub account_type: AccountType,
    pub current_balance: i128,
    pub opening_balance: i128,
    pub closing_balance: i128,
    pub highest_balance: i128,
    pub lowest_balance: i128,
    pub average_daily_balance: i128,
    pub total_inflow: i128,
    pub total_outflow: i128,
    pub net_change: i128,
    pub transaction_count: i64,
    pub balance_history: Vec<AccountBalancePoint>,
}

/// A range of days that a report is asked for.
#[derive(Clone, Copy, Debug, PartialEq, Eq, Structural)]
pub struct AnalyticsPeriod {
    pub start_date: Date,
    pub end_date: Date,
}

/// The day that lies `n` days after `start`; the last day of the calendar
/// where the calendar ends before.
pub open spec fn day_at(start: Date, n: int) -> Date
    decreases n,
{
    if n <= 0 {
        start
    } else {
        let before = day_at(start, n - 1);
        match succ_spec(before) {
            Some(d) => d,
            None => before,
        }
    }
}

/// The number of days from `start` to `end`, both counted; none where
/// `end` is the earlier day.
pub open spec fn span_days(start: Date, end: Date) -> int {
    if date_le(start, end) {
        day_number(end) - day_number(start) + 1
    } else {
        0
    }
}

/// The balance of an account at the end of the day that lies `i` days
/// after `start`.
pub open spec fn daily_balance(
    account: Account,
    postings: Seq<PostedTransaction>,
    start: Date,
    i: int,
) -> int {
    balance_of(account, postings, Scope::UpTo(day_at(start, i)))
}

/// The balance of an account before the first transaction of `start`.
pub open spec fn opening_of(account: Account, postings: Seq<PostedTransaction>, start: Date)
    -> int {
    balance_of(account, postings, Scope::Before(start))
}

/// The sum of the daily balances of the first `n` days.
pub open spec fn walk_sum(account: Account, postings: Seq<PostedTransaction>, start: Date, n: int)
    -> int
    decreases n,
{
    if n <= 0 {
        0
    } else {
        walk_sum(account, postings, start, n - 1) + daily_balance(account, postings, start, n - 1)
    }
}

/// The highest of the opening balance and the daily balances of the first
/// `n` days.
pub open spec fn walk_high(account: Account, postings: Seq<PostedTransaction>, start: Date, n: int)
    -> int
    decreases n,
{
    if n <= 0 {
        opening_of(account, postings, start)
    } else {
        let before = walk_high(account, postings, start, n - 1);
        let today = daily_balance(account, postings, start, n - 1);
        if today > before {
            today
        } else {
            before
        }
    }
}

/// The lowest of the opening balance and the daily balances of the first
/// `n` days.
pub open spec fn walk_low(account: Account, postings: Seq<PostedTransaction>, start: Date, n: int)
    -> int
    decreases n,
{
    if n <= 0 {
        opening_of(account, postings, start)
    } else {
        let before = walk_low(account, postings, start, n - 1);
        let today = daily_balance(account, postings, start, n - 1);
        if today < before {
            today
        } else {
            before
        }
    }
}

/// The history that is shown of the first `n` of `total` days: the
/// opening balance under the first day, then the balance of every seventh
/// day, beginning with the first, and of the last day.
pub open spec fn walk_points(
    account: Account,
    postings: Seq<PostedTransaction>,
    start: Date,
    total: int,
    n: int,
) -> Seq<AccountBalancePoint>
    decreases n,
{
    if n <= 0 {
        seq![
            AccountBalancePoint {
                date: start,
                balance: opening_of(account, postings, start) as i128,
            },
        ]
    } else {
        let front = walk_points(account, postings, start, total, n - 1);
        if (n - 1) % 7 == 0 || n == total {
            front.push(
                AccountBalancePoint {
                    date: day_at(start, n - 1),
                    balance: daily_balance(account, postings, start, n - 1) as i128,
                },
            )
        } else {
            front
        }
    }
}

/// The debit of an entry, if it is an entry of the account.
pub open spec fn debit_term(account_id: int) -> spec_fn(JournalEntry) -> int {
    |e: JournalEntry|
        if e.account_id == account_id {
            e.debit as int
        } else {
            0
        }
}

/// The credit of an entry, if it is an entry of the account.
pub open spec fn credit_term(account_id: int) -> spec_fn(JournalEntry) -> int {
    |e: JournalEntry|
        if e.account_id == account_id {
            e.credit as int
        } else {
            0
        }
}

/// The debits of the entries of one account.
pub open spec fn entries_debit(entries: Seq<JournalEntry>, account_id: int) -> int {
    seq_sum(entries, debit_term(account_id))
}

/// The credits of the entries of one account.
pub open spec fn entries_credit(entries: Seq<JournalEntry>, account_id: int) -> int {
    seq_sum(entries, credit_term(account_id))
}

/// Some entry is an entry of the account.
pub open spec fn touches(entries: Seq<JournalEntry>, account_id: int) -> bool {
    exists|j: int| 0 <= j < entries.len() && (#[trigger] entries[j]).account_id == account_id
}

/// What a posting adds to the inflow of an account in a scope.
pub open spec fn inflow_term(account_id: int, scope: Scope) -> spec_fn(PostedTransaction) -> int {
    |p: PostedTransaction|
        if scope.holds(p.transaction.date) {
            entries_debit(p.entries@, account_id)
        } else {
            0
        }
}

/// What a posting adds to the outflow of an account in a scope.
pub open spec fn outflow_term(account_id: int, scope: Scope) -> spec_fn(PostedTransaction) -> int {
    |p: PostedTransaction|
        if scope.holds(p.transaction.date) {
            entries_credit(p.entries@, account_id)
        } else {
            0
        }
}

/// One for a posting in the scope with an entry of the account.
pub open spec fn touch_term(account_id: int, scope: Scope) -> spec_fn(PostedTransaction) -> int {
    |p: PostedTransaction|
        if scope.holds(p.transaction.date) && touches(p.entries@, account_id) {
            1
        } else {
            0
        }
}

/// The debits of an account in a scope.
pub open spec fn inflow(postings: Seq<PostedTransaction>, account_id: int, scope: Scope) -> int {
    seq_sum(postings, inflow_term(account_id, scope))
}

/// The credits of an account in a scope.
pub open spec fn outflow(postings: Seq<PostedTransaction>, account_id: int, scope: Scope) -> int {
    seq_sum(postings, outflow_term(account_id, scope))
}

/// The number of transactions in a scope that move money into or out of
/// an account.
pub open spec fn movements(postings: Seq<PostedTransaction>, account_id: int, scope: Scope)
    -> int {
    seq_sum(postings, touch_term(account_id, scope))
}

/// The debit and the credit that the entries of a transaction hold for an
/// account are each at most the amount.
pub proof fn lemma_entry_flows(t: Transaction, account_id: int)
    requires
        transaction_ok(t),
    ensures
        0 <= entries_debit(entries_for(t), account_id) <= MAX_AMOUNT,
        0 <= entries_credit(entries_for(t), account_id) <= MAX_AMOUNT,
{
    let es = entries_for(t);
    reveal_with_fuel(seq_sum, 3);
    if t.transaction_type is Transfer {
        assert(es.drop_last().len() == 1);
        assert(es.drop_last().drop_last().len() == 0);
        assert(es.last() == es[1]);
        assert(es.drop_last().last() == es[0]);
    } else {
        assert(es.drop_last().len() == 0);
        assert(es.last() == es[0]);
    }
}

/// The debits and the credits of the entries of one posting for an
/// account, and whether any entry is an entry of the account.
pub fn entry_flows_of(p: &PostedTransaction, account_id: i64) -> (r: (i128, i128, bool))
    requires
        posting_ok(*p),
    ensures
        r.0 == entries_debit(p.entries@, account_id as int),
        r.1 == entries_credit(p.entries@, account_id as int),
        r.2 == touches(p.entries@, account_id as int),
        0 <= r.0 <= MAX_AMOUNT,
        0 <= r.1 <= MAX_AMOUNT,
{
    let ghost fd = debit_term(account_id as int);
    let ghost fc = credit_term(account_id as int);
    let mut debit: i128 = 0;
    let mut credit: i128 = 0;
    let mut found = false;
    let mut j: usize = 0;
    proof {
        lemma_entry_flows(p.transaction, account_id as int);
    }
    assert(p.entries@.len() <= 2);
    while j < p.entries.len()
        invariant
            j <= p.entries.len(),
            p.entries@.len() <= 2,
            posting_ok(*p),
            fd == debit_term(account_id as int),
            fc == credit_term(account_id as int),
            debit == seq_sum(p.entries@.take(j as int), fd),
            credit == seq_sum(p.entries@.take(j as int), fc),
            found == exists|k: int|
                0 <= k < j && (#[trigger] p.entries@[k]).account_id == account_id,
            0 <= debit <= j * MAX_AMOUNT,
            0 <= credit <= j * MAX_AMOUNT,
        decreases p.entries.len() - j,
    {
        let e = &p.entries[j];
        proof {
            lemma_sum_take_step(p.entries@, j as int, fd);
            lemma_sum_take_step(p.entries@, j as int, fc);
            assert(p.entries@[j as int] == entries_for(p.transaction)[j as int]);
        }
        if e.account_id == account_id {
            debit = debit + e.debit as i128;
            credit = credit + e.credit as i128;
            found = true;
        }
        j += 1;
    }
    proof {
        lemma_sum_take_all(p.entries@, fd);
        lemma_sum_take_all(p.entries@, fc);
    }
    (debit, credit, found)
}

/// The debits and the credits of an account in a scope, and the number of
/// transactions that hold them.
pub fn flows_of(ledger: &Ledger, account_id: i64, scope: Scope) -> (r: (i128, i128, i64))
    requires
        ledger.wf(),
    ensures
        r.0 == inflow(ledger@.postings, account_id as int, scope),
        r.1 == outflow(ledger@.postings, account_id as int, scope),
        r.2 == movements(ledger@.postings, account_id as int, scope),
        0 <= r.0 <= FLOW_LIMIT,
        0 <= r.1 <= FLOW_LIMIT,
        0 <= r.2 <= MAX_ROWS,
{
    let postings = ledger.postings();
    let ghost fi = inflow_term(account_id as int, scope);
    let ghost fo = outflow_term(account_id as int, scope);
    let ghost ft = touch_term(account_id as int, scope);
    let mut debit: i128 = 0;
    let mut credit: i128 = 0;
    let mut count: i64 = 0;
    let mut i: usize = 0;
    while i < postings.len()
        invariant
            i <= postings.len(),
            postings@ == ledger@.postings,
            ledger.wf(),
            fi == inflow_term(account_id as int, scope),
            fo == outflow_term(account_id as int, scope),
            ft == touch_term(account_id as int, scope),
            debit == seq_sum(postings@.take(i as int), fi),
            credit == seq_sum(postings@.take(i as int), fo),
            count == seq_sum(postings@.take(i as int), ft),
            0 <= debit <= FLOW_LIMIT,
            0 <= credit <= FLOW_LIMIT,
            0 <= count <= i,
        decreases postings.len() - i,
    {
        let p = &postings[i];
        proof {
            lemma_sum_take_step(postings@, i as int, fi);
            lemma_sum_take_step(postings@, i as int, fo);
            lemma_sum_take_step(postings@, i as int, ft);
            assert forall|k: int| 0 <= k < postings@.len() implies 0 <= fi(#[trigger] postings@[k])
                <= MAX_AMOUNT by {
                assert(posting_ok(postings@[k]));
                lemma_entry_flows(postings@[k].transaction, account_id as int);
            }
            assert forall|k: int| 0 <= k < postings@.len() implies 0 <= fo(#[trigger] postings@[k])
                <= MAX_AMOUNT by {
                assert(posting_ok(postings@[k]));
                lemma_entry_flows(postings@[k].transaction, account_id as int);
            }
            lemma_prefix_sum_bounds(postings@, i + 1, fi, 0, MAX_AMOUNT as int, MAX_ROWS as int);
            lemma_prefix_sum_bounds(postings@, i + 1, fo, 0, MAX_AMOUNT as int, MAX_ROWS as int);
        }
        if scope.contains(&p.transaction.date) {
            let (d, c, found) = entry_flows_of(p, account_id);
            debit = debit + d;
            credit = credit + c;
            if found {
                count = count + 1;
            }
        }
        i += 1;
    }
    proof {
        lemma_sum_take_all(postings@, fi);
        lemma_sum_take_all(postings@, fo);
        lemma_sum_take_all(postings@, ft);
    }
    (debit, credit, count)
}

/// The performance of an account over the days from `start_date` to
/// `end_date`:
/// - the opening balance is the balance before the first day, the closing
///   balance the balance at the end of the last day, and the current
///   balance the balance over the whole journal;
/// - the highest, the lowest and the average balance are taken over the
///   balances at the end of every day of the range, the highest and the
///   lowest over the opening balance too; a range without days has the
///   opening balance for all three;
/// - inflow and outflow are the debits and the credits in the range, and
///   the net change is their difference;
/// - the history holds the opening balance, then the balance of every
///   seventh day and of the last day.
pub fn get_account_balance_history(
    ledger: &Ledger,
    account_id: i64,
    start_date: Date,
    end_date: Date,
) -> (r: Result<AccountPerformance, EngineError>)
    requires
        ledger.wf(),
        start_date.valid(),
        end_date.valid(),
    ensures
        match r {
            Ok(p) => {
                let account = account_with_id(ledger@.accounts, account_id as int);
                let postings = ledger@.postings;
                let range = Scope::Between(start_date, end_date);
                let total = span_days(start_date, end_date);
                &&& has_account(ledger@.accounts, account_id as int)
                &&& p.account_id == account_id
                &&& p.account_type == account.account_type
                &&& p.current_balance == balance_of(account, postings, Scope::All)
                &&& p.opening_balance == opening_of(account, postings, start_date)
                &&& p.closing_balance == balance_of(account, postings, Scope::UpTo(end_date))
                &&& p.highest_balance == walk_high(account, postings, start_date, total)
                &&& p.lowest_balance == walk_low(account, postings, start_date, total)
                &&& p.average_daily_balance == (if total > 0 {
                    div_round(walk_sum(account, postings, start_date, total), total)
                } else {
                    opening_of(account, postings, start_date)
                })
                &&& p.total_inflow == inflow(postings, account_id as int, range)
                &&& p.total_outflow == outflow(postings, account_id as int, range)
                &&& p.net_change == p.total_inflow - p.total_outflow
                &&& p.transaction_count == movements(postings, account_id as int, range)
                &&& p.balance_history@ == walk_points(account, postings, start_date, total, total)
            },
            Err(e) => e == EngineError::AccountNotFound && !has_account(
                ledger@.accounts,
                account_id as int,
            ),
        },
{
    let k = match ledger.find_account(account_id) {
        Some(k) => k,
        None => {
            return Err(EngineError::AccountNotFound);
        },
    };
    proof {
        lemma_account_index(ledger@.accounts, k as int);
        lemma_day_number_order(start_date, end_date);
        lemma_day_number_bounds(start_date);
        lemma_day_number_bounds(end_date);
    }
    let ghost account = ledger@.accounts[k as int];
    let ghost postings = ledger@.postings;
    let opening = balance_at(ledger, k, Scope::Before(start_date));
    let closing = balance_at(ledger, k, Scope::UpTo(end_date));
    let current = balance_at(ledger, k, Scope::All);
    let (total_inflow, total_outflow, transaction_count) = flows_of(
        ledger,
        account_id,
        Scope::Between(start_date, end_date),
    );
    let total: u64 = if start_date.is_on_or_before(&end_date) {
        (end_date.days_since(&start_date) + 1) as u64
    } else {
        0
    };
    let mut history: Vec<AccountBalancePoint> = Vec::new();
    history.push(AccountBalancePoint { date: start_date, balance: opening });
    let mut highest = opening;
    let mut lowest = opening;
    let mut sum: i128 = 0;
    let mut cur = start_date;
    let mut i: u64 = 0;
    assert(history@ =~= walk_points(account, postings, start_date, total as int, 0));
    while i < total
        invariant
            i <= total,
            total == span_days(start_date, end_date),
            total <= 200_000_000,
            ledger.wf(),
            k < ledger@.accounts.len(),
            account == ledger@.accounts[k as int],
            postings == ledger@.postings,
            start_date.valid(),
            end_date.valid(),
            cur == day_at(start_date, i as int),
            i < total ==> cur.valid() && day_number(cur) == day_number(start_date) + i,
            sum == walk_sum(account, postings, start_date, i as int),
            highest == walk_high(account, postings, start_date, i as int),
            lowest == walk_low(account, postings, start_date, i as int),
            history@ == walk_points(account, postings, start_date, total as int, i as int),
            -(i * BALANCE_LIMIT) <= sum <= i * BALANCE_LIMIT,
            -BALANCE_LIMIT <= highest <= BALANCE_LIMIT,
            -BALANCE_LIMIT <= lowest <= BALANCE_LIMIT,
        decreases total - i,
    {
        let balance = balance_at(ledger, k, Scope::UpTo(cur));
        sum = sum + balance;
        if balance > highest {
            highest = balance;
        }
        if balance < lowest {
            lowest = balance;
        }
        if i % 7 == 0 || i + 1 == total {
            history.push(AccountBalancePoint { date: cur, balance });
        }
        proof {
            lemma_day_number_order(cur, end_date);
            if i + 1 < total {
                assert(date_lt(cur, end_date));
                assert(succ_spec(cur) is Some);
                lemma_succ_day_number(cur);
            }
        }
        cur = match cur.succ() {
            Some(next) => next,
            None => cur,
        };
        i = i + 1;
    }
    let average = if total > 0 {
        round_div(sum, total as i128)
    } else {
        opening
    };
    Ok(
        AccountPerformance {
            account_id,
            account_type: ledger.accounts()[k].account_type,
            current_balance: current,
            opening_balance: opening,
            closing_balance: closing,
            highest_balance: highest,
            lowest_balance: lowest,
            average_daily_balance: average,
            total_inflow,
            total_outflow,
            net_change: total_inflow - total_outflow,
            transaction_count,
            balance_history: history,
        },
    )
}

/// Income and expense of a range of days.
#[derive(Clone, Copy, Debug, PartialEq, Eq, Structural)]
pub struct IncomeExpenseSummary {
    pub total_income: i128,
    pub total_expense: i128,
    pub net_savings: i128,
    pub transaction_count: i64,
    pub start_date: Date,
    pub end_date: Date,
}

/// Income and expense of one month in two years running. The changes are
/// in hundredths of a percent.
#[derive(Clone, Copy, Debug, PartialEq, Eq, Structural)]
pub struct YearComparison {
    pub month_num: u32,
    pub current_year_income: i128,
    pub current_year_expense: i128,
    pub previous_year_income: i128,
    pub previous_year_expense: i128,
    pub income_change: i128,
    pub expense_change: i128,
}

/// Net worth at the end of a month, and its growth since the month
/// before. The percentage is in hundredths of a percent.
#[derive(Clone, Copy, Debug, PartialEq, Eq, Structural)]
pub struct NetWorthSnapshot {
    pub date: Date,
    pub total_assets: i128,
    pub total_liabilities: i128,
    pub net_worth: i128,
    pub growth: i128,
    pub growth_percentage: i128,
}

/// What a posting adds to the sum of the transactions of a kind in a
/// scope: its amount, if it is of the kind.
pub open spec fn kind_term(kind: TransactionType, scope: Scope) -> spec_fn(PostedTransaction) -> int {
    |p: PostedTransaction|
        if p.transaction.transaction_type == kind && scope.holds(p.transaction.date) {
            p.transaction.amount as int
        } else {
            0
        }
}

/// One for a posting in the scope.
pub open spec fn count_term(scope: Scope) -> spec_fn(PostedTransaction) -> int {
    |p: PostedTransaction|
        if scope.holds(p.transaction.date) {
            1
        } else {
            0
        }
}

/// The sum of the amounts of the transactions of a kind in a scope.
pub open spec fn kind_total(postings: Seq<PostedTransaction>, kind: TransactionType, scope: Scope)
    -> int {
    seq_sum(postings, kind_term(kind, scope))
}

/// The number of transactions in a scope.
pub open spec fn count_in(postings: Seq<PostedTransaction>, scope: Scope) -> int {
    seq_sum(postings, count_term(scope))
}

/// Income, expense and the number of all transactions in a scope.
pub fn totals_by_kind(ledger: &Ledger, scope: Scope) -> (r: (i128, i128, i64))
    requires
        ledger.wf(),
    ensures
        r.0 == kind_total(ledger@.postings, TransactionType::Income, scope),
        r.1 == kind_total(ledger@.postings, TransactionType::Expense, scope),
        r.2 == count_in(ledger@.postings, scope),
        0 <= r.0 <= FLOW_LIMIT,
        0 <= r.1 <= FLOW_LIMIT,
        0 <= r.2 <= MAX_ROWS,
{
    let postings = ledger.postings();
    let ghost fi = kind_term(TransactionType::Income, scope);
    let ghost fe = kind_term(TransactionType::Expense, scope);
    let ghost fc = count_term(scope);
    let mut income: i128 = 0;
    let mut expense: i128 = 0;
    let mut count: i64 = 0;
    let mut i: usize = 0;
    while i < postings.len()
        invariant
            i <= postings.len(),
            postings@ == ledger@.postings,
            ledger.wf(),
            fi == kind_term(TransactionType::Income, scope),
            fe == kind_term(TransactionType::Expense, scope),
            fc == count_term(scope),
            income == seq_sum(postings@.take(i as int), fi),
            expense == seq_sum(postings@.take(i as int), fe),
            count == seq_sum(postings@.take(i as int), fc),
            0 <= income <= FLOW_LIMIT,
            0 <= expense <= FLOW_LIMIT,
            0 <= count <= i,
        decreases postings.len() - i,
    {
        let t = &postings[i].transaction;
        proof {
            lemma_sum_take_step(postings@, i as int, fi);
            lemma_sum_take_step(postings@, i as int, fe);
            lemma_sum_take_step(postings@, i as int, fc);
            assert forall|k: int| 0 <= k < postings@.len() implies 0 <= fi(#[trigger] postings@[k])
                <= MAX_AMOUNT by {
                assert(posting_ok(postings@[k]));
            }
            assert forall|k: int| 0 <= k < postings@.len() implies 0 <= fe(#[trigger] postings@[k])
                <= MAX_AMOUNT by {
                assert(posting_ok(postings@[k]));
            }
            lemma_prefix_sum_bounds(postings@, i + 1, fi, 0, MAX_AMOUNT as int, MAX_ROWS as int);
            lemma_prefix_sum_bounds(postings@, i + 1, fe, 0, MAX_AMOUNT as int, MAX_ROWS as int);
        }
        if scope.contains(&t.date) {
            match t.transaction_type {
                TransactionType::Income => {
                    income = income + t.amount as i128;
                },
                TransactionType::Expense => {
                    expense = expense + t.amount as i128;
                },
                TransactionType::Transfer => {},
            }
            count = count + 1;
        }
        i += 1;
    }
    proof {
        lemma_sum_take_all(postings@, fi);
        lemma_sum_take_all(postings@, fe);
        lemma_sum_take_all(postings@, fc);
    }
    (income, expense, count)
}

/// Income and expense from `start_date` to `end_date`, what is left of
/// the income, and the number of all transactions of those days.
pub fn get_income_expense_summary(ledger: &Ledger, start_date: Date, end_date: Date) -> (r:
    IncomeExpenseSummary)
    requires
        ledger.wf(),
    ensures
        r.total_income == kind_total(
            ledger@.postings,
            TransactionType::Income,
            Scope::Between(start_date, end_date),
        ),
        r.total_expense == kind_total(
            ledger@.postings,
            TransactionType::Expense,
            Scope::Between(start_date, end_date),
        ),
        r.net_savings == r.total_income - r.total_expense,
        r.transaction_count == count_in(ledger@.postings, Scope::Between(start_date, end_date)),
        r.start_date == start_date,
        r.end_date == end_date,
{
    let (income, expense, count) = totals_by_kind(ledger, Scope::Between(start_date, end_date));
    IncomeExpenseSummary {
        total_income: income,
        total_expense: expense,
        net_savings: income - expense,
        transaction_count: count,
        start_date,
        end_date,
    }
}

/// How a figure changed from one period to the next, in hundredths of a
/// percent of the earlier figure; a whole where there was nothing before
/// and is something now.
pub open spec fn period_change(current: int, previous: int) -> int {
    if previous > 0 {
        div_round((current - previous) * 10000, previous)
    } else if current > 0 {
        10000
    } else {
        0
    }
}

/// How a figure changed from one period to the next.
pub fn change_between(current: i128, previous: i128) -> (r: i128)
    requires
        0 <= current <= FLOW_LIMIT,
        0 <= previous <= FLOW_LIMIT,
    ensures
        r == period_change(current as int, previous as int),
{
    if previous > 0 {
        round_div((current - previous) * 10000, previous)
    } else if current > 0 {
        10000
    } else {
        0
    }
}

/// Income and expense of a month of a year and of the year before.
pub open spec fn year_comparison(postings: Seq<PostedTransaction>, year: i32, month: u32)
    -> YearComparison {
    let now = Scope::Month(year, month);
    let then = Scope::Month((year - 1) as i32, month);
    let income = kind_total(postings, TransactionType::Income, now);
    let expense = kind_total(postings, TransactionType::Expense, now);
    let income_before = kind_total(postings, TransactionType::Income, then);
    let expense_before = kind_total(postings, TransactionType::Expense, then);
    YearComparison {
        month_num: month,
        current_year_income: income as i128,
        current_year_expense: expense as i128,
        previous_year_income: income_before as i128,
        previous_year_expense: expense_before as i128,
        income_change: period_change(income, income_before) as i128,
        expense_change: period_change(expense, expense_before) as i128,
    }
}

/// Income and expense of every month of a year, beside those of the same
/// month of the year before.
pub fn get_year_over_year_comparison(ledger: &Ledger, current_year: i32) -> (r: Vec<
    YearComparison,
>)
    requires
        ledger.wf(),
        current_year > i32::MIN,
    ensures
        r@.len() == 12,
        forall|m: int|
            0 <= m < 12 ==> #[trigger] r@[m] == year_comparison(
                ledger@.postings,
                current_year,
                (m + 1) as u32,
            ),
{
    let mut out: Vec<YearComparison> = Vec::new();
    let mut month: u32 = 1;
    while month <= 12
        invariant
            1 <= month <= 13,
            ledger.wf(),
            current_year > i32::MIN,
            out@.len() == month - 1,
            forall|m: int|
                0 <= m < month - 1 ==> #[trigger] out@[m] == year_comparison(
                    ledger@.postings,
                    current_year,
                    (m + 1) as u32,
                ),
        decreases 13 - month,
    {
        let (income, expense, _count) = totals_by_kind(ledger, Scope::Month(current_year, month));
        let (income_before, expense_before, _before) = totals_by_kind(
            ledger,
            Scope::Month(current_year - 1, month),
        );
        out.push(
            YearComparison {
                month_num: month,
                current_year_income: income,
                current_year_expense: expense,
                previous_year_income: income_before,
                previous_year_expense: expense_before,
                income_change: change_between(income, income_before),
                expense_change: change_between(expense, expense_before),
            },
        );
        month = month + 1;
    }
    out
}

/// The day for which the history of net worth shows the month that lies
/// `back` months before the month of `today`: `today` for the month of
/// `today` itself, else the last day of the month; `today` where the
/// calendar does not reach back so far.
pub open spec fn history_date(today: Date, back: int) -> Date {
    let index = today.year * 12 + (today.month - 1) - back;
    if back <= 0 || index / 12 < MIN_YEAR {
        today
    } else {
        month_end_spec(index / 12, index % 12 + 1)
    }
}

/// Net worth on the history date of the month that lies `back` months
/// back.
pub open spec fn history_worth(v: LedgerView, today: Date, back: int) -> int {
    net_worth(v, Scope::UpTo(history_date(today, back)))
}

/// The row of the history for the month that lies `back` months back, of
/// `months` months in all. The first row shows no growth.
pub open spec fn history_row(v: LedgerView, today: Date, months: int, back: int)
    -> NetWorthSnapshot {
    let date = history_date(today, back);
    let scope = Scope::UpTo(date);
    let worth = history_worth(v, today, back);
    let growth = if back == months - 1 {
        0
    } else {
        worth - history_worth(v, today, back + 1)
    };
    NetWorthSnapshot {
        date,
        total_assets: total_assets(v, scope) as i128,
        total_liabilities: total_liabilities(v, scope) as i128,
        net_worth: worth as i128,
        growth: growth as i128,
        growth_percentage: if back == months - 1 {
            0
        } else {
            change_percentage_spec(growth, history_worth(v, today, back + 1)) as i128
        },
    }
}

/// Net worth at the end of each of the last months, the month of `today`
/// as of `today`, the oldest month first; twelve months where no number
/// is given.
pub fn get_net_worth_history(ledger: &Ledger, months: Option<i32>, today: Date) -> (r: Vec<
    NetWorthSnapshot,
>)
    requires
        ledger.wf(),
        today.valid(),
    ensures
        r@.len() == history_length(months),
        forall|j: int|
            0 <= j < r@.len() ==> #[trigger] r@[j] == history_row(
                ledger@,
                today,
                history_length(months),
                history_length(months) - 1 - j,
            ),
{
    let count: i64 = match months {
        Some(m) => if m > 0 {
            m as i64
        } else {
            0
        },
        None => 12,
    };
    let base: i64 = today.year as i64 * 12 + (today.month as i64 - 1);
    let mut out: Vec<NetWorthSnapshot> = Vec::new();
    let mut previous: i128 = 0;
    let mut j: i64 = 0;
    while j < count
        invariant
            0 <= j <= count,
            count == history_length(months),
            count <= i32::MAX,
            ledger.wf(),
            today.valid(),
            base == today.year * 12 + (today.month - 1),
            out@.len() == j,
            j > 0 ==> previous == history_worth(ledger@, today, count - j),
            -2 * TOTAL_LIMIT <= previous <= 2 * TOTAL_LIMIT,
            forall|x: int|
                0 <= x < j ==> #[trigger] out@[x] == history_row(
                    ledger@,
                    today,
                    count as int,
                    count - 1 - x,
                ),
        decreases count - j,
    {
        let back = count - 1 - j;
        let index = base - back;
        let date = if back == 0 {
            today
        } else {
            let year = if index >= 0 {
                index / 12
            } else {
                -((-index + 11) / 12)
            };
            let month = index - year * 12 + 1;
            if year < MIN_YEAR as i64 {
                today
            } else {
                last_day_of_month(year as i32, month as u32)
            }
        };
        let (assets, liabilities) = calc_net_worth_at(ledger, Some(date));
        let worth = assets - liabilities;
        let growth = if j == 0 {
            0
        } else {
            worth - previous
        };
        let growth_percentage = if j == 0 {
            0
        } else {
            change_percentage(growth, previous)
        };
        out.push(
            NetWorthSnapshot {
                date,
                total_assets: assets,
                total_liabilities: liabilities,
                net_worth: worth,
                growth,
                growth_percentage,
            },
        );
        previous = worth;
        j = j + 1;
    }
    out
}

/// The number of months that the history of net worth shows.
pub open spec fn history_length(months: Option<i32>) -> int {
    match months {
        Some(m) => if m > 0 {
            m as int
        } else {
            0
        },
        None => 12,
    }
}

/// Income and expense of one month.
#[derive(Clone, Copy, Debug, PartialEq, Eq, Structural)]
pub struct MonthlyTrend {
    pub year: i32,
    pub month: u32,
    pub income: i128,
    pub expense: i128,
    pub net: i128,
    pub transaction_count: i64,
}

/// The English name of a month; "Unknown" for a number that names none.
pub open spec fn month_name_spec(month: u32) -> Seq<char> {
    if month == 1 {
        "January"@
    } else if month == 2 {
        "February"@
    } else if month == 3 {
        "March"@
    } else if month == 4 {
        "April"@
    } else if month == 5 {
        "May"@
    } else if month == 6 {
        "June"@
    } else if month == 7 {
        "July"@
    } else if month == 8 {
        "August"@
    } else if month == 9 {
        "September"@
    } else if month == 10 {
        "October"@
    } else if month == 11 {
        "November"@
    } else if month == 12 {
        "December"@
    } else {
        "Unknown"@
    }
}

/// The English name of a month.
pub fn month_name(month: u32) -> (r: &'static str)
    ensures
        r@ == month_name_spec(month),
{
    if month == 1 {
        "January"
    } else if month == 2 {
        "February"
    } else if month == 3 {
        "March"
    } else if month == 4 {
        "April"
    } else if month == 5 {
        "May"
    } else if month == 6 {
        "June"
    } else if month == 7 {
        "July"
    } else if month == 8 {
        "August"
    } else if month == 9 {
        "September"
    } else if month == 10 {
        "October"
    } else if month == 11 {
        "November"
    } else if month == 12 {
        "December"
    } else {
        "Unknown"
    }
}

/// The day that lies `months` months before `today`: the same day of the
/// earlier month, and where that month is too short, as many days into
/// the month after it as are missing; the first day of the calendar
/// where the calendar does not reach back so far.
pub open spec fn months_back_spec(today: Date, months: int) -> Date {
    let index = today.year * 12 + (today.month - 1) - months;
    let year = index / 12;
    let month = index % 12 + 1;
    if year < MIN_YEAR {
        Date { year: MIN_YEAR, month: 1, day: 1 }
    } else if today.day <= days_in_month(year, month) {
        Date { year: year as i32, month: month as u32, day: today.day }
    } else {
        Date {
            year: ((index + 1) / 12) as i32,
            month: ((index + 1) % 12 + 1) as u32,
            day: (today.day - days_in_month(year, month)) as u32,
        }
    }
}

/// The day that lies `months` months before `today`.
pub fn months_back(today: Date, months: i32) -> (r: Date)
    requires
        today.valid(),
        months >= 0,
    ensures
        r == months_back_spec(today, months as int),
        r.valid(),
{
    let index: i64 = today.year as i64 * 12 + (today.month as i64 - 1) - months as i64;
    let year: i64 = if index >= 0 {
        index / 12
    } else {
        -((-index + 11) / 12)
    };
    let month: i64 = index - year * 12 + 1;
    if year < MIN_YEAR as i64 {
        Date { year: MIN_YEAR, month: 1, day: 1 }
    } else {
        let last = last_day_of_month(year as i32, month as u32);
        if today.day <= last.day {
            Date { year: year as i32, month: month as u32, day: today.day }
        } else if month == 12 {
            Date { year: (year + 1) as i32, month: 1, day: today.day - last.day }
        } else {
            Date { year: year as i32, month: (month + 1) as u32, day: today.day - last.day }
        }
    }
}

/// Income and expense of the days of a month that are not before `since`.
pub open spec fn trend_row(postings: Seq<PostedTransaction>, since: Date, year: i32, month: u32)
    -> MonthlyTrend {
    let scope = Scope::MonthFrom(year, month, since);
    let income = kind_total(postings, TransactionType::Income, scope);
    let expense = kind_total(postings, TransactionType::Expense, scope);
    MonthlyTrend {
        year,
        month,
        income: income as i128,
        expense: expense as i128,
        net: (income - expense) as i128,
        transaction_count: count_in(postings, scope) as i64,
    }
}

/// The month of the first row is an earlier one than that of the second.
pub open spec fn month_before(a: MonthlyTrend, b: MonthlyTrend) -> bool {
    a.year < b.year || (a.year == b.year && a.month < b.month)
}

/// The rows show a month of the transaction at place `k`.
pub open spec fn month_shown(rows: Seq<MonthlyTrend>, postings: Seq<PostedTransaction>, k: int)
    -> bool {
    exists|i: int|
        0 <= i < rows.len() && (#[trigger] rows[i]).year == postings[k].transaction.date.year
            && rows[i].month == postings[k].transaction.date.month
}

/// The rows are the trends since a day: one row for every month with a
/// transaction that is not dated before that day, with the income and
/// the expense of those transactions, the earliest month first.
pub open spec fn trends_listed(postings: Seq<PostedTransaction>, since: Date, rows: Seq<MonthlyTrend>)
    -> bool {
    &&& forall|i: int|
        0 <= i < rows.len() ==> (#[trigger] rows[i]) == trend_row(
            postings,
            since,
            rows[i].year,
            rows[i].month,
        ) && count_in(postings, Scope::MonthFrom(rows[i].year, rows[i].month, since)) > 0
    &&& forall|i: int, j: int|
        0 <= i < j < rows.len() ==> month_before(#[trigger] rows[i], #[trigger] rows[j])
    &&& forall|k: int|
        0 <= k < postings.len() && date_le(since, (#[trigger] postings[k]).transaction.date)
            ==> month_shown(rows, postings, k)
}

/// A scope that holds the date of a transaction of the journal counts at
/// least that one.
pub proof fn lemma_count_positive(postings: Seq<PostedTransaction>, scope: Scope, k: int)
    requires
        0 <= k < postings.len(),
        scope.holds(postings[k].transaction.date),
    ensures
        count_in(postings, scope) >= 1,
{
    let f = count_term(scope);
    let rest = postings.remove(k);
    lemma_sum_remove(postings, k, f);
    assert forall|i: int| 0 <= i < rest.len() implies 0 <= f(#[trigger] rest[i]) <= 1 by {}
    lemma_sum_bounds(rest, f, 0, 1);
    assert(rest.len() * 0 == 0);
}

/// Income and expense by month, for the months with a transaction dated
/// `months` months before `today` or later, the earliest month first.
/// Nothing for a negative number of months.
pub fn get_monthly_trends(ledger: &Ledger, months: i32, today: Date) -> (r: Vec<MonthlyTrend>)
    requires
        ledger.wf(),
        today.valid(),
    ensures
        months < 0 ==> r@.len() == 0,
        months >= 0 ==> trends_listed(ledger@.postings, months_back_spec(today, months as int), r@),
{
    let mut out: Vec<MonthlyTrend> = Vec::new();
    if months < 0 {
        return out;
    }
    let since = months_back(today, months);
    let postings = ledger.postings();
    let mut k: usize = 0;
    while k < postings.len()
        invariant
            k <= postings.len(),
            postings@ == ledger@.postings,
            ledger.wf(),
            forall|i: int|
                0 <= i < out@.len() ==> (#[trigger] out@[i]) == trend_row(
                    postings@,
                    since,
                    out@[i].year,
                    out@[i].month,
                ) && count_in(postings@, Scope::MonthFrom(out@[i].year, out@[i].month, since)) > 0,
            forall|i: int, j: int|
                0 <= i < j < out@.len() ==> month_before(#[trigger] out@[i], #[trigger] out@[j]),
            forall|x: int|
                0 <= x < k && date_le(since, (#[trigger] postings@[x]).transaction.date)
                    ==> month_shown(out@, postings@, x),
        decreases postings.len() - k,
    {
        let d = postings[k].transaction.date;
        if since.is_on_or_before(&d) {
            let mut at: usize = 0;
            while at < out.len() && (out[at].year < d.year || (out[at].year == d.year
                && out[at].month < d.month))
                invariant
                    at <= out.len(),
                    forall|i: int|
                        0 <= i < at ==> (#[trigger] out@[i]).year < d.year || (out@[i].year
                            == d.year && out@[i].month < d.month),
                decreases out.len() - at,
            {
                at += 1;
            }
            let ghost before = out@;
            if at < out.len() && out[at].year == d.year && out[at].month == d.month {
                assert(month_shown(out@, postings@, k as int));
            } else {
                let scope = Scope::MonthFrom(d.year, d.month, since);
                let (income, expense, count) = totals_by_kind(ledger, scope);
                proof {
                    lemma_count_positive(postings@, scope, k as int);
                }
                let row = MonthlyTrend {
                    year: d.year,
                    month: d.month,
                    income,
                    expense,
                    net: income - expense,
                    transaction_count: count,
                };
                out.insert(at, row);
                proof {
                    assert(out@[at as int] == row);
                    assert forall|i: int| 0 <= i < out@.len() implies (#[trigger] out@[i])
                        == trend_row(postings@, since, out@[i].year, out@[i].month) && count_in(
                        postings@,
                        Scope::MonthFrom(out@[i].year, out@[i].month, since),
                    ) > 0 by {
                        if i < at {
                            assert(out@[i] == before[i]);
                        } else if i > at {
                            assert(out@[i] == before[i - 1]);
                        }
                    }
                    assert forall|i: int, j: int| 0 <= i < j < out@.len() implies month_before(
                        #[trigger] out@[i],
                        #[trigger] out@[j],
                    ) by {
                        if j < at {
                            assert(out@[i] == before[i] && out@[j] == before[j]);
                        } else if j == at {
                            assert(out@[i] == before[i]);
                        } else if i < at {
                            assert(out@[i] == before[i] && out@[j] == before[j - 1]);
                            if at < j - 1 {
                                assert(month_before(before[i], before[j - 1]));
                            }
                        } else if i == at {
                            assert(out@[j] == before[j - 1]);
                            if at < j - 1 {
                                assert(month_before(before[at as int], before[j - 1]));
                            }
                        } else {
                            assert(out@[i] == before[i - 1] && out@[j] == before[j - 1]);
                        }
                    }
                    assert forall|x: int|
                        0 <= x < k && date_le(
                            since,
                            (#[trigger] postings@[x]).transaction.date,
                        ) implies month_shown(out@, postings@, x) by {
                        assert(month_shown(before, postings@, x));
                        let i = choose|i: int|
                            0 <= i < before.len() && (#[trigger] before[i]).year
                                == postings@[x].transaction.date.year && before[i].month
                                == postings@[x].transaction.date.month;
                        if i < at {
                            assert(out@[i] == before[i]);
                        } else {
                            assert(out@[i + 1] == before[i]);
                        }
                    }
                    assert(month_shown(out@, postings@, k as int));
                }
            }
        }
        k += 1;
    }
    out
}

/// A scope that counts a transaction holds the date of one.
pub proof fn lemma_count_witness(postings: Seq<PostedTransaction>, scope: Scope)
    requires
        count_in(postings, scope) > 0,
    ensures
        exists|k: int| 0 <= k < postings.len() && scope.holds((#[trigger] postings[k]).transaction.date),
{
    let f = count_term(scope);
    if !exists|k: int| 0 <= k < postings.len() && scope.holds((#[trigger] postings[k]).transaction.date) {
        assert forall|i: int| 0 <= i < postings.len() implies f(#[trigger] postings[i]) == 0 by {
            assert(!scope.holds(postings[i].transaction.date));
        }
        lemma_sum_zero(postings, f);
    }
}

/// Every month of one list of trends is a month of every other list of
/// the trends since the same day.
proof fn lemma_month_in_both(
    postings: Seq<PostedTransaction>,
    since: Date,
    a: Seq<MonthlyTrend>,
    b: Seq<MonthlyTrend>,
    i: int,
) -> (j: int)
    requires
        trends_listed(postings, since, a),
        trends_listed(postings, since, b),
        0 <= i < a.len(),
    ensures
        0 <= j < b.len(),
        b[j].year == a[i].year,
        b[j].month == a[i].month,
{
    let scope = Scope::MonthFrom(a[i].year, a[i].month, since);
    assert(a[i] == trend_row(postings, since, a[i].year, a[i].month));
    lemma_count_witness(postings, scope);
    let k = choose|k: int|
        0 <= k < postings.len() && scope.holds((#[trigger] postings[k]).transaction.date);
    assert(month_shown(b, postings, k));
    choose|j: int|
        0 <= j < b.len() && (#[trigger] b[j]).year == postings[k].transaction.date.year
            && b[j].month == postings[k].transaction.date.month
}

/// Two lists of the trends since the same day show the same months at
/// their first `n` places.
proof fn lemma_same_months(
    postings: Seq<PostedTransaction>,
    since: Date,
    a: Seq<MonthlyTrend>,
    b: Seq<MonthlyTrend>,
    n: int,
)
    requires
        trends_listed(postings, since, a),
        trends_listed(postings, since, b),
        0 <= n <= a.len(),
        n <= b.len(),
    ensures
        forall|i: int|
            0 <= i < n ==> (#[trigger] a[i]).year == b[i].year && a[i].month == b[i].month,
    decreases n,
{
    if n > 0 {
        lemma_same_months(postings, since, a, b, n - 1);
        let m = n - 1;
        let j = lemma_month_in_both(postings, since, a, b, m);
        if j < m {
            assert(a[j].year == b[j].year && a[j].month == b[j].month);
            assert(month_before(a[j], a[m]));
        } else if j > m {
            assert(month_before(b[m], b[j]));
        }
        let i = lemma_month_in_both(postings, since, b, a, m);
        if i < m {
            assert(a[i].year == b[i].year && a[i].month == b[i].month);
            assert(month_before(b[i], b[m]));
        } else if i > m {
            assert(month_before(a[m], a[i]));
        }
    }
}

/// There is one list of the trends since a day, and no other.
pub proof fn lemma_trends_unique(
    postings: Seq<PostedTransaction>,
    since: Date,
    a: Seq<MonthlyTrend>,
    b: Seq<MonthlyTrend>,
)
    requires
        trends_listed(postings, since, a),
        trends_listed(postings, since, b),
    ensures
        a == b,
{
    if a.len() > b.len() {
        lemma_same_months(postings, since, a, b, b.len() as int);
        let j = lemma_month_in_both(postings, since, a, b, b.len() as int);
        assert(a[j].year == b[j].year && a[j].month == b[j].month);
        assert(month_before(a[j], a[b.len() as int]));
    } else if b.len() > a.len() {
        lemma_same_months(postings, since, a, b, a.len() as int);
        let j = lemma_month_in_both(postings, since, b, a, a.len() as int);
        assert(a[j].year == b[j].year && a[j].month == b[j].month);
        assert(month_before(b[j], b[a.len() as int]));
    } else {
        lemma_same_months(postings, since, a, b, a.len() as int);
        assert forall|i: int| 0 <= i < a.len() implies a[i] == b[i] by {
            assert(a[i] == trend_row(postings, since, a[i].year, a[i].month));
            assert(b[i] == trend_row(postings, since, b[i].year, b[i].month));
        }
        assert(a =~= b);
    }
}

} // verus!
