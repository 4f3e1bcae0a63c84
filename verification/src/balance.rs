//! Balances derived from the journal.
//!
//! The balance of an account is its initial balance plus the debits minus
//! the credits of its journal entries, over the transactions whose dates
//! lie in the scope of the question. It is summed anew on every call.

use crate::date::{date_le, date_lt, Date};
use crate::ledger::{
    draft_error, entries_for, has_account, posted_as, posting_ok, transaction_from,
    transaction_ok, Ledger, LedgerView, TransactionDraft,
};
use crate::model::{
    Account, AccountType, AccountWithBalance, EngineError, JournalEntry, PostedTransaction,
    Transaction, TransactionType, MAX_AMOUNT, MAX_ROWS,
};
use crate::money::liability_magnitude_spec;
use crate::sums::{
    lemma_sum_bounds, lemma_sum_permutation, lemma_sum_push, lemma_sum_take_all,
    lemma_sum_take_step, seq_sum,
};
use vstd::prelude::*;

verus! {

/// The largest magnitude that the balance of one account can have.
pub const BALANCE_LIMIT: i128 = 1_000_000_001_000_000_000_000_000;

/// The largest magnitude that a total over all accounts can have.
pub const TOTAL_LIMIT: i128 = 1_000_000_001_000_000_000_000_000_000_000_000;

/// The dates that a question is about.
#[derive(Clone, Copy, Debug, PartialEq, Eq, Structural)]
pub enum Scope {
    /// Every date.
    All,
    /// The given date and every earlier one.
    UpTo(Date),
    /// Every date before the given one.
    Before(Date),
    /// The given date and every later one.
    From(Date),
    /// The dates from the first to the second, both included.
    Between(Date, Date),
    /// The dates from the first up to the second, the second left out.
    Window(Date, Date),
    /// The days of a month of a year.
    Month(i32, u32),
    /// The days of a month of a year that are not after the given date.
    MonthUpTo(i32, u32, Date),
    /// The days of a month of a year that are not before the given date.
    MonthFrom(i32, u32, Date),
}

impl Scope {
    pub open spec fn holds(self, d: Date) -> bool {
        match self {
            Scope::All => true,
            Scope::UpTo(end) => date_le(d, end),
            Scope::Before(end) => date_lt(d, end),
            Scope::From(start) => date_le(start, d),
            Scope::Between(start, end) => date_le(start, d) && date_le(d, end),
            Scope::Window(start, end) => date_le(start, d) && date_lt(d, end),
            Scope::Month(year, month) => d.year == year && d.month == month,
            Scope::MonthUpTo(year, month, end) => d.year == year && d.month == month && date_le(
                d,
                end,
            ),
            Scope::MonthFrom(year, month, start) => d.year == year && d.month == month && date_le(
                start,
                d,
            ),
        }
    }

    /// Whether the date lies in the scope.
    pub fn contains(&self, d: &Date) -> (b: bool)
        ensures
            b == self.holds(*d),
    {
        match self {
            Scope::All => true,
            Scope::UpTo(end) => d.is_on_or_before(end),
            Scope::Before(end) => d.is_before(end),
            Scope::From(start) => start.is_on_or_before(d),
            Scope::Between(start, end) => start.is_on_or_before(d) && d.is_on_or_before(end),
            Scope::Window(start, end) => start.is_on_or_before(d) && d.is_before(end),
            Scope::Month(year, month) => d.year == *year && d.month == *month,
            Scope::MonthUpTo(year, month, end) => d.year == *year && d.month == *month
                && d.is_on_or_before(end),
            Scope::MonthFrom(year, month, start) => d.year == *year && d.month == *month
                && start.is_on_or_before(d),
        }
    }
}

/// The scope of a balance "as of" a date; every date where none is given.
pub open spec fn scope_as_of(as_of: Option<Date>) -> Scope {
    match as_of {
        Some(d) => Scope::UpTo(d),
        None => Scope::All,
    }
}

/// What one journal entry adds to the balance of an account: its debit
/// minus its credit, if it is an entry of that account.
pub open spec fn entry_delta(account_id: int) -> spec_fn(JournalEntry) -> int {
    |e: JournalEntry|
        if e.account_id == account_id {
            e.debit - e.credit
        } else {
            0
        }
}

/// Debits minus credits of the entries of one account.
pub open spec fn entries_delta(entries: Seq<JournalEntry>, account_id: int) -> int {
    seq_sum(entries, entry_delta(account_id))
}

/// What one posted transaction adds to the balance of an account in a
/// scope.
pub open spec fn posting_delta(account_id: int, scope: Scope) -> spec_fn(PostedTransaction) -> int {
    |p: PostedTransaction|
        if scope.holds(p.transaction.date) {
            entries_delta(p.entries@, account_id)
        } else {
            0
        }
}

/// Debits minus credits of an account over the postings in a scope.
pub open spec fn journal_balance(postings: Seq<PostedTransaction>, account_id: int, scope: Scope)
    -> int {
    seq_sum(postings, posting_delta(account_id, scope))
}

/// The balance of an account in a scope.
pub open spec fn balance_of(account: Account, postings: Seq<PostedTransaction>, scope: Scope)
    -> int {
    account.initial_balance + journal_balance(postings, account.id as int, scope)
}

/// What a transaction adds to the balance of an account, read off the
/// transaction itself.
pub open spec fn transaction_delta(t: Transaction, account_id: int) -> int {
    match t.transaction_type {
        TransactionType::Income => if t.account_id == account_id {
            t.amount as int
        } else {
            0
        },
        TransactionType::Expense => if t.account_id == account_id {
            -(t.amount as int)
        } else {
            0
        },
        TransactionType::Transfer => if t.account_id == account_id {
            -(t.amount as int)
        } else if t.to_account_id == Some(account_id as i64) {
            t.amount as int
        } else {
            0
        },
    }
}

/// The entries that a transaction owns add to an account what the
/// transaction says.
pub proof fn lemma_entries_delta(t: Transaction, account_id: int)
    requires
        transaction_ok(t),
        i64::MIN <= account_id <= i64::MAX,
    ensures
        entries_delta(entries_for(t), account_id) == transaction_delta(t, account_id),
        -MAX_AMOUNT <= transaction_delta(t, account_id) <= MAX_AMOUNT,
{
    let es = entries_for(t);
    let f = entry_delta(account_id);
    reveal_with_fuel(seq_sum, 3);
    if t.transaction_type is Transfer {
        assert(es.len() == 2);
        assert(es.drop_last().len() == 1);
        assert(es.drop_last().drop_last().len() == 0);
        assert(es.last() == es[1]);
        assert(es.drop_last().last() == es[0]);
        assert(seq_sum(es, f) == f(es[0]) + f(es[1]));
    } else {
        assert(es.len() == 1);
        assert(es.drop_last().len() == 0);
        assert(es.last() == es[0]);
        assert(seq_sum(es, f) == f(es[0]));
    }
}

/// Every term of a journal balance lies within one amount of zero.
pub proof fn lemma_posting_delta_bound(p: PostedTransaction, account_id: int, scope: Scope)
    requires
        posting_ok(p),
        i64::MIN <= account_id <= i64::MAX,
    ensures
        -MAX_AMOUNT <= posting_delta(account_id, scope)(p) <= MAX_AMOUNT,
        posting_delta(account_id, scope)(p) == (if scope.holds(p.transaction.date) {
            transaction_delta(p.transaction, account_id)
        } else {
            0
        }),
{
    lemma_entries_delta(p.transaction, account_id);
}

/// The balance of an account of a well-formed ledger is bounded.
pub proof fn lemma_balance_bound(v: LedgerView, k: int, scope: Scope)
    requires
        v.wf(),
        0 <= k < v.accounts.len(),
    ensures
        -BALANCE_LIMIT <= balance_of(v.accounts[k], v.postings, scope) <= BALANCE_LIMIT,
{
    let a = v.accounts[k].id as int;
    lemma_journal_bound(v.postings, a, scope);
}

/// A journal balance over postings that meet the rules is bounded by the
/// number of postings.
pub proof fn lemma_journal_bound(postings: Seq<PostedTransaction>, account_id: int, scope: Scope)
    requires
        forall|i: int| 0 <= i < postings.len() ==> posting_ok(#[trigger] postings[i]),
        postings.len() <= MAX_ROWS,
        i64::MIN <= account_id <= i64::MAX,
    ensures
        -(MAX_ROWS * MAX_AMOUNT) <= journal_balance(postings, account_id, scope) <= MAX_ROWS
            * MAX_AMOUNT,
{
    let f = posting_delta(account_id, scope);
    assert forall|i: int| 0 <= i < postings.len() implies -MAX_AMOUNT <= f(#[trigger] postings[i])
        <= MAX_AMOUNT by {
        lemma_posting_delta_bound(postings[i], account_id, scope);
    }
    lemma_sum_bounds(postings, f, -(MAX_AMOUNT as int), MAX_AMOUNT as int);
    let n = postings.len() as int;
    assert(n * MAX_AMOUNT <= MAX_ROWS * MAX_AMOUNT) by (nonlinear_arith)
        requires
            0 <= n <= MAX_ROWS,
    ;
    assert(n * (-(MAX_AMOUNT as int)) >= -(MAX_ROWS * MAX_AMOUNT)) by (nonlinear_arith)
        requires
            0 <= n <= MAX_ROWS,
    ;
}

/// Debits minus credits of the entries of one posting for an account.
pub fn entries_delta_of(p: &PostedTransaction, account_id: i64) -> (r: i128)
    requires
        posting_ok(*p),
    ensures
        r == entries_delta(p.entries@, account_id as int),
        -MAX_AMOUNT <= r <= MAX_AMOUNT,
{
    let ghost f = entry_delta(account_id as int);
    let mut sum: i128 = 0;
    let mut j: usize = 0;
    proof {
        lemma_entries_delta(p.transaction, account_id as int);
    }
    assert(p.entries@.len() <= 2);
    while j < p.entries.len()
        invariant
            j <= p.entries.len(),
            p.entries@.len() <= 2,
            posting_ok(*p),
            f == entry_delta(account_id as int),
            sum == seq_sum(p.entries@.take(j as int), f),
            -(j * MAX_AMOUNT) <= sum <= j * MAX_AMOUNT,
        decreases p.entries.len() - j,
    {
        let e = &p.entries[j];
        proof {
            lemma_sum_take_step(p.entries@, j as int, f);
            assert(p.entries@[j as int] == entries_for(p.transaction)[j as int]);
        }
        if e.account_id == account_id {
            sum = sum + (e.debit as i128 - e.credit as i128);
        }
        j += 1;
    }
    proof {
        lemma_sum_take_all(p.entries@, f);
    }
    sum
}

/// Debits minus credits of an account over the postings in a scope.
pub fn journal_balance_of(ledger: &Ledger, account_id: i64, scope: Scope) -> (r: i128)
    requires
        ledger.wf(),
    ensures
        r == journal_balance(ledger@.postings, account_id as int, scope),
        -(MAX_ROWS * MAX_AMOUNT) <= r <= MAX_ROWS * MAX_AMOUNT,
{
    let postings = ledger.postings();
    let ghost f = posting_delta(account_id as int, scope);
    let mut sum: i128 = 0;
    let mut i: usize = 0;
    while i < postings.len()
        invariant
            i <= postings.len(),
            postings@ == ledger@.postings,
            ledger.wf(),
            f == posting_delta(account_id as int, scope),
            sum == seq_sum(postings@.take(i as int), f),
            -(MAX_ROWS * MAX_AMOUNT) <= sum <= MAX_ROWS * MAX_AMOUNT,
        decreases postings.len() - i,
    {
        let p = &postings[i];
        proof {
            lemma_sum_take_step(postings@, i as int, f);
            let next = postings@.take(i + 1);
            assert forall|k: int| 0 <= k < next.len() implies posting_ok(#[trigger] next[k]) by {
                assert(next[k] == postings@[k]);
            }
            lemma_journal_bound(next, account_id as int, scope);
        }
        if scope.contains(&p.transaction.date) {
            let delta = entries_delta_of(p, account_id);
            sum = sum + delta;
        }
        i += 1;
    }
    proof {
        lemma_sum_take_all(postings@, f);
    }
    sum
}

/// The balance of an account as of a date: the initial balance plus
/// debits minus credits of the postings dated on or before it, or of all
/// postings where no date is given.
pub fn balance_as_of(ledger: &Ledger, account_id: i64, as_of: Option<Date>) -> (r: Result<
    i128,
    EngineError,
>)
    requires
        ledger.wf(),
    ensures
        match r {
            Ok(b) => exists|k: int|
                0 <= k < ledger@.accounts.len() && (#[trigger] ledger@.accounts[k]).id
                    == account_id && b == balance_of(
                    ledger@.accounts[k],
                    ledger@.postings,
                    scope_as_of(as_of),
                ),
            Err(e) => e == EngineError::AccountNotFound && !has_account(
                ledger@.accounts,
                account_id as int,
            ),
        },
{
    let scope = match as_of {
        Some(d) => Scope::UpTo(d),
        None => Scope::All,
    };
    match ledger.find_account(account_id) {
        None => Err(EngineError::AccountNotFound),
        Some(k) => {
            let journal = journal_balance_of(ledger, account_id, scope);
            Ok(ledger.accounts()[k].initial_balance as i128 + journal)
        },
    }
}

/// The balance of the account at place `k` in a scope.
pub fn balance_at(ledger: &Ledger, k: usize, scope: Scope) -> (r: i128)
    requires
        ledger.wf(),
        k < ledger@.accounts.len(),
    ensures
        r == balance_of(ledger@.accounts[k as int], ledger@.postings, scope),
        -BALANCE_LIMIT <= r <= BALANCE_LIMIT,
{
    let account = &ledger.accounts()[k];
    let journal = journal_balance_of(ledger, account.id, scope);
    account.initial_balance as i128 + journal
}

/// What an account adds to the total of the assets.
pub open spec fn asset_term(postings: Seq<PostedTransaction>, scope: Scope) -> spec_fn(
    Account,
) -> int {
    |a: Account|
        if a.account_type is Asset {
            balance_of(a, postings, scope)
        } else {
            0
        }
}

/// What an account adds to the total of the liabilities: the magnitude of
/// a negative balance, and nothing for a balance that is overpaid.
pub open spec fn liability_term(postings: Seq<PostedTransaction>, scope: Scope) -> spec_fn(
    Account,
) -> int {
    |a: Account|
        if a.account_type is Liability {
            liability_magnitude_spec(balance_of(a, postings, scope))
        } else {
            0
        }
}

/// The sum of the balances of the asset accounts.
pub open spec fn total_assets(v: LedgerView, scope: Scope) -> int {
    seq_sum(v.accounts, asset_term(v.postings, scope))
}

/// The sum of what is owed on the liability accounts.
pub open spec fn total_liabilities(v: LedgerView, scope: Scope) -> int {
    seq_sum(v.accounts, liability_term(v.postings, scope))
}

/// Assets minus liabilities.
pub open spec fn net_worth(v: LedgerView, scope: Scope) -> int {
    total_assets(v, scope) - total_liabilities(v, scope)
}

/// The totals over the accounts of a well-formed ledger are bounded, and
/// the liabilities are never negative.
pub proof fn lemma_totals_bound(v: LedgerView, n: int, scope: Scope)
    requires
        v.wf(),
        0 <= n <= v.accounts.len(),
    ensures
        -TOTAL_LIMIT <= seq_sum(v.accounts.take(n), asset_term(v.postings, scope)) <= TOTAL_LIMIT,
        0 <= seq_sum(v.accounts.take(n), liability_term(v.postings, scope)) <= TOTAL_LIMIT,
{
    let s = v.accounts.take(n);
    let fa = asset_term(v.postings, scope);
    let fl = liability_term(v.postings, scope);
    assert forall|i: int| 0 <= i < s.len() implies -BALANCE_LIMIT <= fa(#[trigger] s[i])
        <= BALANCE_LIMIT by {
        assert(s[i] == v.accounts[i]);
        lemma_balance_bound(v, i, scope);
    }
    assert forall|i: int| 0 <= i < s.len() implies 0 <= fl(#[trigger] s[i]) <= BALANCE_LIMIT by {
        assert(s[i] == v.accounts[i]);
        lemma_balance_bound(v, i, scope);
    }
    lemma_sum_bounds(s, fa, -(BALANCE_LIMIT as int), BALANCE_LIMIT as int);
    lemma_sum_bounds(s, fl, 0, BALANCE_LIMIT as int);
    let len = s.len() as int;
    assert(len * BALANCE_LIMIT <= MAX_ROWS * BALANCE_LIMIT) by (nonlinear_arith)
        requires
            0 <= len <= MAX_ROWS,
    ;
    assert(len * (-(BALANCE_LIMIT as int)) >= -(MAX_ROWS * BALANCE_LIMIT)) by (nonlinear_arith)
        requires
            0 <= len <= MAX_ROWS,
    ;
    assert(len * 0 == 0);
}

/// Total assets and total liabilities over the postings in a scope.
pub fn totals_in(ledger: &Ledger, scope: Scope) -> (r: (i128, i128))
    requires
        ledger.wf(),
    ensures
        r.0 == total_assets(ledger@, scope),
        r.1 == total_liabilities(ledger@, scope),
        -TOTAL_LIMIT <= r.0 <= TOTAL_LIMIT,
        0 <= r.1 <= TOTAL_LIMIT,
{
    let accounts = ledger.accounts();
    let ghost fa = asset_term(ledger@.postings, scope);
    let ghost fl = liability_term(ledger@.postings, scope);
    let mut assets: i128 = 0;
    let mut liabilities: i128 = 0;
    let mut i: usize = 0;
    while i < accounts.len()
        invariant
            i <= accounts.len(),
            accounts@ == ledger@.accounts,
            ledger.wf(),
            fa == asset_term(ledger@.postings, scope),
            fl == liability_term(ledger@.postings, scope),
            assets == seq_sum(accounts@.take(i as int), fa),
            liabilities == seq_sum(accounts@.take(i as int), fl),
            -TOTAL_LIMIT <= assets <= TOTAL_LIMIT,
            0 <= liabilities <= TOTAL_LIMIT,
        decreases accounts.len() - i,
    {
        let balance = balance_at(ledger, i, scope);
        proof {
            lemma_sum_take_step(accounts@, i as int, fa);
            lemma_sum_take_step(accounts@, i as int, fl);
            lemma_totals_bound(ledger@, i + 1, scope);
        }
        match accounts[i].account_type {
            AccountType::Asset => {
                assets = assets + balance;
            },
            AccountType::Liability => {
                if balance < 0 {
                    liabilities = liabilities + (-balance);
                }
            },
        }
        i += 1;
    }
    proof {
        lemma_sum_take_all(accounts@, fa);
        lemma_sum_take_all(accounts@, fl);
    }
    (assets, liabilities)
}

/// Total assets and total liabilities as of a date, or over the whole
/// journal where no date is given.
pub fn calc_net_worth_at(ledger: &Ledger, as_of_date: Option<Date>) -> (r: (i128, i128))
    requires
        ledger.wf(),
    ensures
        r.0 == total_assets(ledger@, scope_as_of(as_of_date)),
        r.1 == total_liabilities(ledger@, scope_as_of(as_of_date)),
        -TOTAL_LIMIT <= r.0 <= TOTAL_LIMIT,
        0 <= r.1 <= TOTAL_LIMIT,
{
    let scope = match as_of_date {
        Some(d) => Scope::UpTo(d),
        None => Scope::All,
    };
    totals_in(ledger, scope)
}

/// Every account with its balance over the whole journal, in the order of
/// the accounts.
pub fn get_accounts_with_balance(ledger: &Ledger) -> (r: Vec<AccountWithBalance>)
    requires
        ledger.wf(),
    ensures
        r@.len() == ledger@.accounts.len(),
        forall|k: int|
            0 <= k < r@.len() ==> (#[trigger] r@[k]).account_id == ledger@.accounts[k].id
                && r@[k].current_balance == balance_of(
                ledger@.accounts[k],
                ledger@.postings,
                Scope::All,
            ),
{
    let accounts = ledger.accounts();
    let mut out: Vec<AccountWithBalance> = Vec::new();
    let mut i: usize = 0;
    while i < accounts.len()
        invariant
            i <= accounts.len(),
            accounts@ == ledger@.accounts,
            ledger.wf(),
            out@.len() == i,
            forall|k: int|
                0 <= k < i ==> (#[trigger] out@[k]).account_id == ledger@.accounts[k].id
                    && out@[k].current_balance == balance_of(
                    ledger@.accounts[k],
                    ledger@.postings,
                    Scope::All,
                ),
        decreases accounts.len() - i,
    {
        let balance = balance_at(ledger, i, Scope::All);
        out.push(AccountWithBalance { account_id: accounts[i].id, current_balance: balance });
        i += 1;
    }
    out
}

/// The balance of an account does not depend on the order in which the
/// transactions were posted.
pub proof fn lemma_balance_any_order(
    account: Account,
    first: Seq<PostedTransaction>,
    second: Seq<PostedTransaction>,
    scope: Scope,
)
    requires
        first.to_multiset() == second.to_multiset(),
    ensures
        balance_of(account, first, scope) == balance_of(account, second, scope),
{
    lemma_sum_permutation(first, second, posting_delta(account.id as int, scope));
}

/// Posting adds to the balance of an account what the transaction says,
/// if its date lies in the scope.
pub proof fn lemma_balance_after_post(
    before: LedgerView,
    after: LedgerView,
    t: Transaction,
    account: Account,
    scope: Scope,
)
    requires
        transaction_ok(t),
        posted_as(before, after, t),
    ensures
        balance_of(account, after.postings, scope) == balance_of(account, before.postings, scope)
            + (if scope.holds(t.date) {
            transaction_delta(t, account.id as int)
        } else {
            0
        }),
{
    let f = posting_delta(account.id as int, scope);
    let p = after.postings.last();
    assert(after.postings =~= before.postings.push(p));
    lemma_sum_push(before.postings, p, f);
    lemma_entries_delta(t, account.id as int);
}

/// Income of an amount followed by an expense of the same amount on the
/// same account leaves every balance over the whole journal where it was.
pub proof fn lemma_income_then_expense(
    start: LedgerView,
    middle: LedgerView,
    end: LedgerView,
    income: TransactionDraft,
    expense: TransactionDraft,
    account: Account,
)
    requires
        start.wf(),
        income.transaction_type is Income,
        expense.transaction_type is Expense,
        income.amount == expense.amount,
        income.account_id == expense.account_id,
        draft_error(start, income) is None,
        posted_as(start, middle, transaction_from(start.next_transaction_id, income)),
        draft_error(middle, expense) is None,
        posted_as(middle, end, transaction_from(middle.next_transaction_id, expense)),
    ensures
        balance_of(account, end.postings, Scope::All) == balance_of(
            account,
            start.postings,
            Scope::All,
        ),
{
    let t1 = transaction_from(start.next_transaction_id, income);
    let t2 = transaction_from(middle.next_transaction_id, expense);
    lemma_balance_after_post(start, middle, t1, account, Scope::All);
    lemma_balance_after_post(middle, end, t2, account, Scope::All);
}

} // verus!
