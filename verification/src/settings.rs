//! Taking a backup back: accounts, categories, transactions and budgets
//! are written anew under fresh identifiers, and every transaction goes
//! through the poster, so that its journal entries are derived anew.

use crate::budgets::{has_budget, Budget, BudgetBook, BudgetBookView, BudgetPeriod};
use crate::date::Date;
use crate::ledger::{
    account_from, draft_rule_error, entries_for, has_account, has_category, has_transaction,
    transaction_from, Ledger, LedgerView, NewAccount, TransactionDraft,
};
use crate::model::{
    copy_of_text, Account, AccountType, Category, CategoryType, CurrencyCode, EngineError, TransactionType,
    MAX_AMOUNT, MAX_ROWS,
};
use vstd::prelude::*;

verus! {

/// An account of a backup, under the identifier that it had.
#[derive(Debug)]
pub struct BackupAccount {
    pub id: i64,
    pub group_id: i64,
    pub account_type: AccountType,
    pub name: String,
    pub initial_balance: i64,
    pub currency: CurrencyCode,
}

/// A category of a backup, under the identifier that it had.
#[derive(Debug)]
pub struct BackupCategory {
    pub id: i64,
    pub parent_id: Option<i64>,
    pub name: String,
    pub category_type: CategoryType,
}

/// A transaction of a backup. It names accounts and category by the
/// identifiers that they had.
#[derive(Debug)]
pub struct BackupTransaction {
    pub date: Date,
    pub transaction_type: TransactionType,
    pub amount: i64,
    pub account_id: i64,
    pub to_account_id: Option<i64>,
    pub category_id: Option<i64>,
    pub memo: Option<String>,
    pub photo_path: Option<String>,
}

/// A budget of a backup.
#[derive(Clone, Copy, Debug, PartialEq, Eq, Structural)]
pub struct BackupBudget {
    pub category_id: i64,
    pub amount: i64,
    pub period: BudgetPeriod,
    pub start_date: Date,
}

/// What a backup holds.
#[derive(Debug)]
pub struct BackupData {
    pub accounts: Vec<BackupAccount>,
    pub categories: Vec<BackupCategory>,
    pub transactions: Vec<BackupTransaction>,
    pub budgets: Vec<BackupBudget>,
}

/// How much was taken back.
#[derive(Clone, Copy, Debug, PartialEq, Eq, Structural)]
pub struct RestoreResult {
    pub success: bool,
    pub accounts_restored: i64,
    pub categories_restored: i64,
    pub transactions_restored: i64,
    pub budgets_restored: i64,
}

/// How much was cleared.
#[derive(Clone, Copy, Debug, PartialEq, Eq, Structural)]
pub struct ClearResult {
    pub success: bool,
    pub accounts_deleted: i64,
    pub categories_deleted: i64,
    pub transactions_deleted: i64,
    pub budgets_deleted: i64,
}

/// The new identifier that a list of old and new identifiers gives for an
/// old one: that of the last pair that holds the old one.
pub open spec fn lookup_spec(map: Seq<(i64, i64)>, old_id: i64) -> Option<i64>
    decreases map.len(),
{
    if map.len() == 0 {
        None
    } else if map.last().0 == old_id {
        Some(map.last().1)
    } else {
        lookup_spec(map.drop_last(), old_id)
    }
}

/// The new identifier for an old one.
pub fn lookup(map: &Vec<(i64, i64)>, old_id: i64) -> (r: Option<i64>)
    ensures
        r == lookup_spec(map@, old_id),
{
    let mut k = map.len();
    proof {
        assert(map@.take(k as int) =~= map@);
    }
    while k > 0
        invariant
            k <= map.len(),
            lookup_spec(map@, old_id) == lookup_spec(map@.take(k as int), old_id),
        decreases k,
    {
        proof {
            assert(map@.take(k as int).drop_last() =~= map@.take(k - 1));
        }
        if map[k - 1].0 == old_id {
            return Some(map[k - 1].1);
        }
        k -= 1;
    }
    None
}

/// The first `n` accounts of a backup with their new identifiers, which
/// count up from one in the order of the backup.
pub open spec fn account_map(accounts: Seq<BackupAccount>, n: int) -> Seq<(i64, i64)>
    decreases n,
{
    if n <= 0 {
        Seq::empty()
    } else {
        account_map(accounts, n - 1).push((accounts[n - 1].id, n as i64))
    }
}

/// The account that is written for an account of a backup.
pub open spec fn restored_account(a: BackupAccount) -> NewAccount {
    NewAccount {
        group_id: a.group_id,
        account_type: a.account_type,
        name: a.name,
        initial_balance: a.initial_balance,
        currency: a.currency,
    }
}

/// The accounts that are written for the accounts of a backup, in the
/// order of the backup, each under the number of its place.
pub open spec fn restored_accounts(accounts: Seq<BackupAccount>) -> Seq<Account> {
    Seq::new(accounts.len(), |i: int| account_from(i + 1, restored_account(accounts[i])))
}

/// The initial balance of the account is larger than the engine takes.
pub open spec fn balance_refused(a: BackupAccount) -> bool {
    a.initial_balance < -MAX_AMOUNT || a.initial_balance > MAX_AMOUNT
}

/// The new identifier for an old one, or the old one where the list has
/// none for it.
pub open spec fn mapped_or_same(map: Seq<(i64, i64)>, old_id: Option<i64>) -> Option<i64> {
    match old_id {
        Some(id) => match lookup_spec(map, id) {
            Some(new_id) => Some(new_id),
            None => Some(id),
        },
        None => None,
    }
}

/// The category that is written for a category of a backup.
pub open spec fn restored_category(c: BackupCategory, id: int, parent_id: Option<i64>) -> Category {
    Category { id: id as i64, parent_id, name: c.name, category_type: c.category_type }
}

/// The categories of a backup that have no parent, with their new
/// identifiers, which count up from one.
pub open spec fn root_map(categories: Seq<BackupCategory>, n: int) -> Seq<(i64, i64)>
    decreases n,
{
    if n <= 0 {
        Seq::empty()
    } else {
        let front = root_map(categories, n - 1);
        if categories[n - 1].parent_id is None {
            front.push((categories[n - 1].id, (front.len() + 1) as i64))
        } else {
            front
        }
    }
}

/// The categories that are written for those among the first `n` of a
/// backup that have no parent.
pub open spec fn root_rows(categories: Seq<BackupCategory>, n: int) -> Seq<Category>
    decreases n,
{
    if n <= 0 {
        Seq::empty()
    } else {
        let front = root_rows(categories, n - 1);
        if categories[n - 1].parent_id is None {
            front.push(restored_category(categories[n - 1], (front.len() + 1) as int, None))
        } else {
            front
        }
    }
}

/// The new identifiers of the categories without a parent, and of those
/// with a parent among the first `n` categories of a backup.
pub open spec fn category_map(categories: Seq<BackupCategory>, n: int) -> Seq<(i64, i64)>
    decreases n,
{
    if n <= 0 {
        root_map(categories, categories.len() as int)
    } else {
        let front = category_map(categories, n - 1);
        if categories[n - 1].parent_id is Some {
            front.push((categories[n - 1].id, (front.len() + 1) as i64))
        } else {
            front
        }
    }
}

/// The parent under which the category at place `k` of a backup is
/// written: the new identifier of its old parent, as far as the
/// categories written before it have one, else the old identifier.
pub open spec fn restored_parent(categories: Seq<BackupCategory>, k: int) -> Option<i64> {
    mapped_or_same(category_map(categories, k), categories[k].parent_id)
}

/// The categories that are written for those without a parent, and for
/// those with a parent among the first `n` categories of a backup.
pub open spec fn category_rows(categories: Seq<BackupCategory>, n: int) -> Seq<Category>
    decreases n,
{
    if n <= 0 {
        root_rows(categories, categories.len() as int)
    } else {
        let front = category_rows(categories, n - 1);
        if categories[n - 1].parent_id is Some {
            front.push(
                restored_category(
                    categories[n - 1],
                    (front.len() + 1) as int,
                    restored_parent(categories, n - 1),
                ),
            )
        } else {
            front
        }
    }
}

/// Among the first `n` categories of a backup there is one whose parent
/// is none of the categories written before it.
pub open spec fn parent_missing(categories: Seq<BackupCategory>, n: int) -> bool
    decreases n,
{
    if n <= 0 {
        false
    } else {
        parent_missing(categories, n - 1) || (categories[n - 1].parent_id is Some && !has_category(
            category_rows(categories, n - 1),
            restored_parent(categories, n - 1).unwrap() as int,
        ))
    }
}

/// The draft that is posted for a transaction of a backup: accounts and
/// category under their new identifiers.
pub open spec fn restored_draft(
    t: BackupTransaction,
    accounts: Seq<(i64, i64)>,
    categories: Seq<(i64, i64)>,
) -> TransactionDraft {
    TransactionDraft {
        date: t.date,
        transaction_type: t.transaction_type,
        amount: t.amount,
        account_id: lookup_spec(accounts, t.account_id).unwrap(),
        to_account_id: mapped_or_same(accounts, t.to_account_id),
        category_id: mapped_or_same(categories, t.category_id),
        memo: t.memo,
        photo_path: t.photo_path,
        auto_settlement: false,
    }
}

/// The new identifiers of all accounts of a backup.
pub open spec fn account_ids_of(data: BackupData) -> Seq<(i64, i64)> {
    account_map(data.accounts@, data.accounts@.len() as int)
}

/// The new identifiers of all categories of a backup.
pub open spec fn category_ids_of(data: BackupData) -> Seq<(i64, i64)> {
    category_map(data.categories@, data.categories@.len() as int)
}

/// The draft that is posted for the transaction at place `k` of a backup.
pub open spec fn draft_at(data: BackupData, k: int) -> TransactionDraft {
    restored_draft(data.transactions@[k], account_ids_of(data), category_ids_of(data))
}

/// Why the transaction at place `k` of a backup is refused; `None` where
/// it is posted. Its account is none of the backup, or the draft breaks a
/// rule of the poster.
pub open spec fn transaction_refused(data: BackupData, k: int) -> Option<EngineError> {
    if lookup_spec(account_ids_of(data), data.transactions@[k].account_id) is None {
        Some(EngineError::AccountNotFound)
    } else {
        draft_rule_error(
            LedgerView {
                accounts: restored_accounts(data.accounts@),
                categories: category_rows(data.categories@, data.categories@.len() as int),
                postings: Seq::empty(),
                next_account_id: 1,
                next_category_id: 1,
                next_transaction_id: 1,
            },
            draft_at(data, k),
        )
    }
}

/// Why the first of the first `n` transactions of a backup that is
/// refused is refused; `None` where all of them are posted.
pub open spec fn first_refusal(data: BackupData, n: int) -> Option<EngineError>
    decreases n,
{
    if n <= 0 {
        None
    } else {
        match first_refusal(data, n - 1) {
            Some(e) => Some(e),
            None => transaction_refused(data, n - 1),
        }
    }
}

/// The amount of the budget is one that the engine takes, and its start
/// is a day of the calendar.
pub open spec fn budget_taken(b: BackupBudget) -> bool {
    0 < b.amount <= MAX_AMOUNT && b.start_date.valid()
}

/// The budgets that are written for the budgets of a backup, in the
/// order of the backup, each under the number of its place and for the
/// category under its new identifier.
pub open spec fn restored_budgets(budgets: Seq<BackupBudget>, categories: Seq<(i64, i64)>) -> Seq<
    Budget,
> {
    Seq::new(
        budgets.len(),
        |i: int|
            Budget {
                id: (i + 1) as i64,
                category_id: mapped_or_same(categories, Some(budgets[i].category_id)).unwrap(),
                amount: budgets[i].amount,
                period: budgets[i].period,
                start_date: budgets[i].start_date,
            },
    )
}

/// Why a backup is refused; `None` for one that is taken back. In this
/// order: it holds more rows than a table takes; an account has too
/// large an initial balance; a category names a parent that is not
/// written before it; a transaction is refused, of which the first
/// decides; a budget has an amount or a start that the engine does not
/// take.
pub open spec fn restore_error(data: BackupData) -> Option<EngineError> {
    if data.accounts@.len() > MAX_ROWS || data.categories@.len() > MAX_ROWS
        || data.transactions@.len() > MAX_ROWS || data.budgets@.len() > MAX_ROWS {
        Some(EngineError::CapacityExceeded)
    } else if exists|i: int|
        0 <= i < data.accounts@.len() && balance_refused(#[trigger] data.accounts@[i]) {
        Some(EngineError::AmountOutOfRange)
    } else if parent_missing(data.categories@, data.categories@.len() as int) {
        Some(EngineError::ParentNotFound)
    } else if first_refusal(data, data.transactions@.len() as int) is Some {
        first_refusal(data, data.transactions@.len() as int)
    } else if exists|i: int|
        0 <= i < data.budgets@.len() && !budget_taken(#[trigger] data.budgets@[i]) {
        Some(EngineError::InvalidRecord)
    } else {
        None
    }
}

/// What a backup that was taken back leaves behind:
/// - every account under a new identifier, which counts up from one in
///   the order of the backup;
/// - every category under a new identifier, which counts up from one,
///   those without a parent first;
/// - every transaction under a new identifier, which counts up from one
///   in the order of the backup, with accounts and category under their
///   new identifiers, and with the journal entries of its kind;
/// - every budget under a new identifier, for the category under its new
///   identifier.
pub open spec fn restored(
    data: BackupData,
    ledger: LedgerView,
    budgets: BudgetBookView,
    result: RestoreResult,
) -> bool {
    let transactions = data.transactions@;
    &&& ledger.wf()
    &&& budgets.wf()
    &&& result == (RestoreResult {
        success: true,
        accounts_restored: data.accounts@.len() as i64,
        categories_restored: data.categories@.len() as i64,
        transactions_restored: transactions.len() as i64,
        budgets_restored: data.budgets@.len() as i64,
    })
    &&& ledger.accounts == restored_accounts(data.accounts@)
    &&& ledger.categories == category_rows(data.categories@, data.categories@.len() as int)
    &&& ledger.postings.len() == transactions.len()
    &&& forall|i: int|
        0 <= i < transactions.len() ==> (#[trigger] ledger.postings[i]).transaction
            == transaction_from(i + 1, draft_at(data, i)) && ledger.postings[i].entries@
            == entries_for(ledger.postings[i].transaction)
    &&& ledger.next_account_id == data.accounts@.len() + 1
    &&& ledger.next_category_id == data.categories@.len() + 1
    &&& ledger.next_transaction_id == transactions.len() + 1
    &&& budgets.budgets == restored_budgets(data.budgets@, category_ids_of(data))
    &&& budgets.next_id == data.budgets@.len() + 1
}

/// The number of categories with a parent among the first `n`.
pub open spec fn children_before(categories: Seq<BackupCategory>, n: int) -> int
    decreases n,
{
    if n <= 0 {
        0
    } else {
        children_before(categories, n - 1) + (if categories[n - 1].parent_id is Some {
            1int
        } else {
            0int
        })
    }
}

/// There are no more categories with a parent among the first `n` than
/// among the first `m`, for `m` not less than `n`.
pub proof fn lemma_children_before(categories: Seq<BackupCategory>, n: int, m: int)
    requires
        n <= m,
    ensures
        children_before(categories, n) <= children_before(categories, m),
    decreases m - n,
{
    if n < m {
        lemma_children_before(categories, n, m - 1);
    }
}

/// A parent that is missing among the first `n` categories is missing
/// among the first `m`, for `m` not less than `n`.
pub proof fn lemma_parent_missing_stays(categories: Seq<BackupCategory>, n: int, m: int)
    requires
        n <= m,
        parent_missing(categories, n),
    ensures
        parent_missing(categories, m),
    decreases m - n,
{
    if n < m {
        lemma_parent_missing_stays(categories, n, m - 1);
    }
}

/// The first refusal among the first `n` transactions is the first
/// refusal among the first `m`, for `m` not less than `n`.
pub proof fn lemma_first_refusal_stays(data: BackupData, n: int, m: int)
    requires
        n <= m,
        first_refusal(data, n) is Some,
    ensures
        first_refusal(data, m) == first_refusal(data, n),
    decreases m - n,
{
    if n < m {
        lemma_first_refusal_stays(data, n, m - 1);
    }
}

/// Takes a backup back into an empty ledger and an empty book of
/// budgets. Accounts, categories, transactions and budgets receive new
/// identifiers, and every transaction is posted anew. A backup that
/// breaks a rule of the engine is refused as a whole.
#[verifier::loop_isolation(false)]
pub fn restore_from_backup(data: BackupData) -> (r: Result<
    (Ledger, BudgetBook, RestoreResult),
    EngineError,
>)
    ensures
        match r {
            Ok(out) => restore_error(data) is None && restored(data, out.0@, out.1@, out.2),
            Err(e) => restore_error(data) == Some(e),
        },
{
    let account_count = data.accounts.len();
    let category_count = data.categories.len();
    let transaction_count = data.transactions.len();
    let budget_count = data.budgets.len();
    if account_count > MAX_ROWS || category_count > MAX_ROWS || transaction_count > MAX_ROWS
        || budget_count > MAX_ROWS {
        return Err(EngineError::CapacityExceeded);
    }
    let ghost accounts0 = data.accounts@;
    let ghost categories0 = data.categories@;
    let mut ledger = Ledger::new();
    // Accounts, in the order of the backup.
    let mut account_ids: Vec<(i64, i64)> = Vec::new();
    let mut i: usize = 0;
    while i < account_count
        invariant
            i <= account_count,
            account_count == data.accounts@.len(),
            account_count <= MAX_ROWS,
            accounts0 == data.accounts@,
            account_ids@ == account_map(accounts0, i as int),
            ledger.wf(),
            ledger@.accounts =~= restored_accounts(accounts0).take(i as int),
            ledger@.categories.len() == 0,
            ledger@.postings.len() == 0,
            ledger@.next_account_id == i + 1,
            ledger@.next_category_id == 1,
            ledger@.next_transaction_id == 1,
            forall|j: int| 0 <= j < i ==> !balance_refused(#[trigger] accounts0[j]),
        decreases account_count - i,
    {
        let a = &data.accounts[i];
        let entry = NewAccount {
            group_id: a.group_id,
            account_type: a.account_type,
            name: a.name.clone(),
            initial_balance: a.initial_balance,
            currency: a.currency,
        };
        assert(entry == restored_account(accounts0[i as int]));
        let ghost before = ledger@;
        proof {
            if has_account(before.accounts, i + 1) {
                let w = choose|w: int|
                    0 <= w < before.accounts.len() && (#[trigger] before.accounts[w]).id == i + 1;
                assert(before.accounts[w].id < before.next_account_id);
            }
        }
        match ledger.restore_account((i + 1) as i64, entry) {
            Ok(_) => {},
            Err(e) => {
                assert(balance_refused(accounts0[i as int]));
                return Err(e);
            },
        }
        account_ids.push((a.id, (i + 1) as i64));
        i += 1;
    }
    assert(ledger@.accounts =~= restored_accounts(accounts0));
    // Categories: those without a parent, then those with one.
    let mut category_ids: Vec<(i64, i64)> = Vec::new();
    let mut i: usize = 0;
    while i < category_count
        invariant
            i <= category_count,
            category_count == data.categories@.len(),
            category_count <= MAX_ROWS,
            categories0 == data.categories@,
            category_ids@ == root_map(categories0, i as int),
            ledger.wf(),
            ledger@.accounts == restored_accounts(accounts0),
            ledger@.categories == root_rows(categories0, i as int),
            ledger@.categories.len() == category_ids@.len(),
            ledger@.categories.len() + children_before(categories0, i as int) == i,
            ledger@.postings.len() == 0,
            ledger@.next_account_id == account_count + 1,
            ledger@.next_category_id == ledger@.categories.len() + 1,
            ledger@.next_transaction_id == 1,
        decreases category_count - i,
    {
        let c = &data.categories[i];
        if c.parent_id.is_none() {
            let new_id = (category_ids.len() + 1) as i64;
            let entry = Category {
                id: new_id,
                parent_id: None,
                name: c.name.clone(),
                category_type: c.category_type,
            };
            assert(entry == restored_category(
                categories0[i as int],
                (ledger@.categories.len() + 1) as int,
                None,
            ));
            let ghost before = ledger@;
            proof {
                lemma_children_before(categories0, 0, i as int);
                if has_category(before.categories, new_id as int) {
                    let w = choose|w: int|
                        0 <= w < before.categories.len() && (#[trigger] before.categories[w]).id
                            == new_id;
                    assert(before.categories[w].id < before.next_category_id);
                }
            }
            match ledger.restore_category(entry) {
                Ok(_) => {},
                Err(e) => {
                    assert(false);
                    return Err(e);
                },
            }
            category_ids.push((c.id, new_id));
        }
        i += 1;
    }
    let ghost root_count = category_ids@.len();
    let mut i: usize = 0;
    while i < category_count
        invariant
            i <= category_count,
            category_count == data.categories@.len(),
            category_count <= MAX_ROWS,
            categories0 == data.categories@,
            category_ids@ == category_map(categories0, i as int),
            ledger.wf(),
            ledger@.accounts == restored_accounts(accounts0),
            ledger@.categories == category_rows(categories0, i as int),
            ledger@.categories.len() == category_ids@.len(),
            root_count + children_before(categories0, category_count as int) == category_count,
            ledger@.categories.len() == root_count + children_before(categories0, i as int),
            ledger@.postings.len() == 0,
            ledger@.next_account_id == account_count + 1,
            ledger@.next_category_id == ledger@.categories.len() + 1,
            ledger@.next_transaction_id == 1,
            !parent_missing(categories0, i as int),
        decreases category_count - i,
    {
        let c = &data.categories[i];
        match c.parent_id {
            Some(old_parent) => {
                let parent = match lookup(&category_ids, old_parent) {
                    Some(new_parent) => new_parent,
                    None => old_parent,
                };
                let new_id = (category_ids.len() + 1) as i64;
                let entry = Category {
                    id: new_id,
                    parent_id: Some(parent),
                    name: c.name.clone(),
                    category_type: c.category_type,
                };
                assert(restored_parent(categories0, i as int) == Some(parent));
                assert(entry == restored_category(
                    categories0[i as int],
                    (ledger@.categories.len() + 1) as int,
                    restored_parent(categories0, i as int),
                ));
                let ghost before = ledger@;
                proof {
                    lemma_children_before(categories0, i + 1, category_count as int);
                    if has_category(before.categories, new_id as int) {
                        let w = choose|w: int|
                            0 <= w < before.categories.len() && (
                            #[trigger] before.categories[w]).id == new_id;
                        assert(before.categories[w].id < before.next_category_id);
                    }
                }
                match ledger.restore_category(entry) {
                    Ok(_) => {},
                    Err(e) => {
                        proof {
                            assert(parent_missing(categories0, i + 1));
                            lemma_parent_missing_stays(categories0, i + 1, category_count as int);
                        }
                        return Err(e);
                    },
                }
                category_ids.push((c.id, new_id));
            },
            None => {},
        }
        i += 1;
    }
    // Transactions, each through the poster.
    let mut k: usize = 0;
    while k < transaction_count
        invariant
            k <= transaction_count,
            transaction_count == data.transactions@.len(),
            transaction_count <= MAX_ROWS,
            account_count == data.accounts@.len(),
            category_count == data.categories@.len(),
            accounts0 == data.accounts@,
            categories0 == data.categories@,
            account_ids@ == account_ids_of(data),
            category_ids@ == category_ids_of(data),
            ledger.wf(),
            ledger@.accounts == restored_accounts(accounts0),
            ledger@.categories == category_rows(categories0, category_count as int),
            ledger@.next_account_id == account_count + 1,
            ledger@.next_category_id == category_count + 1,
            ledger@.next_transaction_id == k + 1,
            ledger@.postings.len() == k,
            forall|j: int|
                0 <= j < k ==> (#[trigger] ledger@.postings[j]).transaction == transaction_from(
                    j + 1,
                    draft_at(data, j),
                ) && ledger@.postings[j].entries@ == entries_for(ledger@.postings[j].transaction),
            first_refusal(data, k as int) is None,
        decreases transaction_count - k,
    {
        let ghost before = ledger@;
        let t = &data.transactions[k];
        let account_id = match lookup(&account_ids, t.account_id) {
            Some(id) => id,
            None => {
                proof {
                    assert(transaction_refused(data, k as int) == Some(
                        EngineError::AccountNotFound,
                    ));
                    assert(first_refusal(data, k + 1) == Some(EngineError::AccountNotFound));
                    lemma_first_refusal_stays(data, k + 1, transaction_count as int);
                }
                return Err(EngineError::AccountNotFound);
            },
        };
        let to_account_id = match t.to_account_id {
            Some(old_to) => match lookup(&account_ids, old_to) {
                Some(id) => Some(id),
                None => Some(old_to),
            },
            None => None,
        };
        let category_id = match t.category_id {
            Some(old_category) => match lookup(&category_ids, old_category) {
                Some(id) => Some(id),
                None => Some(old_category),
            },
            None => None,
        };
        let draft = TransactionDraft {
            date: t.date,
            transaction_type: t.transaction_type,
            amount: t.amount,
            account_id,
            to_account_id,
            category_id,
            memo: copy_of_text(&t.memo),
            photo_path: copy_of_text(&t.photo_path),
            auto_settlement: false,
        };
        assert(draft == draft_at(data, k as int));
        proof {
            if has_transaction(before.postings, k + 1) {
                let w = choose|w: int|
                    0 <= w < before.postings.len() && (#[trigger] before.postings[w]).transaction.id
                        == k + 1;
                assert(before.postings[w].transaction.id < before.next_transaction_id);
            }
            assert(draft_rule_error(before, draft) == transaction_refused(data, k as int));
        }
        match ledger.restore_transaction((k + 1) as i64, draft) {
            Ok(_) => {},
            Err(e) => {
                proof {
                    assert(transaction_refused(data, k as int) == Some(e));
                    assert(first_refusal(data, k + 1) == Some(e));
                    lemma_first_refusal_stays(data, k + 1, transaction_count as int);
                }
                return Err(e);
            },
        }
        proof {
            assert(ledger@.postings.drop_last() == before.postings);
            assert forall|j: int| 0 <= j < k + 1 implies (#[trigger] ledger@.postings[j]).transaction
                == transaction_from(j + 1, draft_at(data, j)) && ledger@.postings[j].entries@
                == entries_for(ledger@.postings[j].transaction) by {
                if j < k {
                    assert(ledger@.postings[j] == ledger@.postings.drop_last()[j]);
                } else {
                    assert(ledger@.postings[j] == ledger@.postings.last());
                }
            }
            assert(first_refusal(data, k + 1) is None);
        }
        k += 1;
    }
    // Budgets.
    let ghost budgets0 = data.budgets@;
    let mut book = BudgetBook::new();
    let mut k: usize = 0;
    while k < budget_count
        invariant
            k <= budget_count,
            budget_count <= MAX_ROWS,
            budget_count == data.budgets@.len(),
            budgets0 == data.budgets@,
            category_ids@ == category_ids_of(data),
            book.wf(),
            book@.budgets =~= restored_budgets(budgets0, category_ids@).take(k as int),
            book@.next_id == k + 1,
            forall|j: int| 0 <= j < k ==> budget_taken(#[trigger] budgets0[j]),
        decreases budget_count - k,
    {
        let b = data.budgets[k];
        let category_id = match lookup(&category_ids, b.category_id) {
            Some(id) => id,
            None => b.category_id,
        };
        let budget = Budget {
            id: (k + 1) as i64,
            category_id,
            amount: b.amount,
            period: b.period,
            start_date: b.start_date,
        };
        let ghost before = book@;
        proof {
            if has_budget(before.budgets, k + 1) {
                let w = choose|w: int|
                    0 <= w < before.budgets.len() && (#[trigger] before.budgets[w]).id == k + 1;
                assert(before.budgets[w].id < before.next_id);
            }
        }
        match book.restore_budget(budget) {
            Ok(_) => {},
            Err(e) => {
                assert(!budget_taken(budgets0[k as int]));
                return Err(e);
            },
        }
        assert(budget_taken(budgets0[k as int]));
        k += 1;
    }
    assert(book@.budgets =~= restored_budgets(budgets0, category_ids@));
    let result = RestoreResult {
        success: true,
        accounts_restored: account_count as i64,
        categories_restored: category_count as i64,
        transactions_restored: transaction_count as i64,
        budgets_restored: budget_count as i64,
    };
    Ok((ledger, book, result))
}

/// Empties the ledger and the book of budgets, and tells how much they
/// held.
pub fn clear_all_data(ledger: &mut Ledger, budgets: &mut BudgetBook) -> (r: ClearResult)
    requires
        old(ledger).wf(),
        old(budgets).wf(),
    ensures
        final(ledger).wf(),
        final(budgets).wf(),
        final(ledger)@.accounts.len() == 0,
        final(ledger)@.categories.len() == 0,
        final(ledger)@.postings.len() == 0,
        final(budgets)@.budgets.len() == 0,
        r == (ClearResult {
            success: true,
            accounts_deleted: old(ledger)@.accounts.len() as i64,
            categories_deleted: old(ledger)@.categories.len() as i64,
            transactions_deleted: old(ledger)@.postings.len() as i64,
            budgets_deleted: old(budgets)@.budgets.len() as i64,
        }),
{
    let result = ClearResult {
        success: true,
        accounts_deleted: ledger.accounts().len() as i64,
        categories_deleted: ledger.categories().len() as i64,
        transactions_deleted: ledger.postings().len() as i64,
        budgets_deleted: budgets.get_budgets().len() as i64,
    };
    *ledger = Ledger::new();
    *budgets = BudgetBook::new();
    result
}

} // verus!
