//! The ledger store and the transaction poster.
//!
//! The store holds accounts, categories and posted transactions. A posted
//! transaction owns its journal entries; the poster is the only way in,
//! and it writes a transaction together with its entries or nothing.

use crate::date::Date;
use crate::model::{
    Account, Category, EngineError, JournalEntry, PostedTransaction, Transaction,
    TransactionType, MAX_AMOUNT, MAX_ID, MAX_ROWS,
};
use crate::sums::seq_sum;
use vstd::prelude::*;

verus! {

/// What the poster is asked to write.
#[derive(Debug)]
pub struct TransactionDraft {
    pub date: Date,
    pub transaction_type: TransactionType,
    pub amount: i64,
    pub account_id: i64,
    pub to_account_id: Option<i64>,
    pub category_id: Option<i64>,
    pub memo: Option<String>,
    pub photo_path: Option<String>,
    pub auto_settlement: bool,
}

/// The ledger as a mathematical value.
pub struct LedgerView {
    pub accounts: Seq<Account>,
    pub categories: Seq<Category>,
    pub postings: Seq<PostedTransaction>,
    pub next_account_id: int,
    pub next_category_id: int,
    pub next_transaction_id: int,
}

pub open spec fn has_account(accounts: Seq<Account>, id: int) -> bool {
    exists|i: int| 0 <= i < accounts.len() && #[trigger] accounts[i].id == id
}

pub open spec fn has_category(categories: Seq<Category>, id: int) -> bool {
    exists|i: int| 0 <= i < categories.len() && #[trigger] categories[i].id == id
}

pub open spec fn has_transaction(postings: Seq<PostedTransaction>, id: int) -> bool {
    exists|i: int| 0 <= i < postings.len() && #[trigger] postings[i].transaction.id == id
}

/// The journal entries that a transaction owns: one debit for income, one
/// credit for an expense, a credit at the source and a debit at the
/// destination for a transfer.
pub open spec fn entries_for(t: Transaction) -> Seq<JournalEntry> {
    match t.transaction_type {
        TransactionType::Income => seq![
            JournalEntry {
                id: (2 * t.id - 1) as i64,
                transaction_id: t.id,
                account_id: t.account_id,
                debit: t.amount,
                credit: 0,
            },
        ],
        TransactionType::Expense => seq![
            JournalEntry {
                id: (2 * t.id - 1) as i64,
                transaction_id: t.id,
                account_id: t.account_id,
                debit: 0,
                credit: t.amount,
            },
        ],
        TransactionType::Transfer => seq![
            JournalEntry {
                id: (2 * t.id - 1) as i64,
                transaction_id: t.id,
                account_id: t.account_id,
                debit: 0,
                credit: t.amount,
            },
            JournalEntry {
                id: (2 * t.id) as i64,
                transaction_id: t.id,
                account_id: t.to_account_id.unwrap(),
                debit: t.amount,
                credit: 0,
            },
        ],
    }
}

/// The rules that every transaction of the ledger meets by itself.
pub open spec fn transaction_ok(t: Transaction) -> bool {
    &&& 1 <= t.id <= MAX_ID
    &&& 0 < t.amount <= MAX_AMOUNT
    &&& t.date.valid()
    &&& (t.transaction_type is Transfer ==> t.to_account_id is Some && t.to_account_id != Some(
        t.account_id,
    ))
}

/// A transaction that meets the rules, with exactly the entries it owns.
pub open spec fn posting_ok(p: PostedTransaction) -> bool {
    transaction_ok(p.transaction) && p.entries@ == entries_for(p.transaction)
}

pub open spec fn account_ok(a: Account) -> bool {
    1 <= a.id <= MAX_ID && -MAX_AMOUNT <= a.initial_balance <= MAX_AMOUNT
}

pub open spec fn accounts_distinct(accounts: Seq<Account>) -> bool {
    forall|i: int, j: int|
        0 <= i < j < accounts.len() ==> (#[trigger] accounts[i]).id != (#[trigger] accounts[j]).id
}

pub open spec fn categories_distinct(categories: Seq<Category>) -> bool {
    forall|i: int, j: int|
        0 <= i < j < categories.len() ==> (#[trigger] categories[i]).id != (
        #[trigger] categories[j]).id
}

pub open spec fn postings_distinct(postings: Seq<PostedTransaction>) -> bool {
    forall|i: int, j: int|
        0 <= i < j < postings.len() ==> (#[trigger] postings[i]).transaction.id != (
        #[trigger] postings[j]).transaction.id
}

/// The account of a transaction, the destination of a transfer and the
/// category that a transaction names exist. A destination that stands on
/// income or on an expense is kept as it was given, whatever it names.
pub open spec fn references_ok(
    accounts: Seq<Account>,
    categories: Seq<Category>,
    t: Transaction,
) -> bool {
    &&& has_account(accounts, t.account_id as int)
    &&& (t.transaction_type is Transfer ==> has_account(accounts, t.to_account_id.unwrap() as int))
    &&& (t.category_id matches Some(c) ==> has_category(categories, c as int))
}

impl LedgerView {
    pub open spec fn wf(self) -> bool {
        &&& self.accounts.len() <= MAX_ROWS
        &&& self.categories.len() <= MAX_ROWS
        &&& self.postings.len() <= MAX_ROWS
        &&& 1 <= self.next_account_id <= MAX_ID + 1
        &&& 1 <= self.next_category_id <= MAX_ID + 1
        &&& 1 <= self.next_transaction_id <= MAX_ID + 1
        &&& forall|i: int|
            0 <= i < self.accounts.len() ==> account_ok(#[trigger] self.accounts[i])
                && self.accounts[i].id < self.next_account_id
        &&& accounts_distinct(self.accounts)
        &&& forall|i: int|
            0 <= i < self.categories.len() ==> 1 <= (#[trigger] self.categories[i]).id
                < self.next_category_id
        &&& categories_distinct(self.categories)
        &&& forall|i: int|
            0 <= i < self.categories.len() ==> ((#[trigger] self.categories[i]).parent_id matches Some(
                p,
            ) ==> p != self.categories[i].id && has_category(self.categories, p as int))
        &&& forall|i: int|
            0 <= i < self.postings.len() ==> posting_ok(#[trigger] self.postings[i])
                && self.postings[i].transaction.id < self.next_transaction_id
        &&& postings_distinct(self.postings)
        &&& forall|i: int|
            0 <= i < self.postings.len() ==> references_ok(
                self.accounts,
                self.categories,
                (#[trigger] self.postings[i]).transaction,
            )
    }
}

/// The transaction that the poster writes for a draft under the given
/// identifier: every field as the draft gives it, the destination too,
/// whatever the kind.
pub open spec fn transaction_from(id: int, d: TransactionDraft) -> Transaction {
    Transaction {
        id: id as i64,
        date: d.date,
        transaction_type: d.transaction_type,
        amount: d.amount,
        account_id: d.account_id,
        to_account_id: d.to_account_id,
        category_id: d.category_id,
        memo: d.memo,
        photo_path: d.photo_path,
        auto_settlement: d.auto_settlement,
    }
}

/// The first rule that a draft breaks, in the order in which the poster
/// tests them; `None` for a draft that breaks none.
pub open spec fn draft_rule_error(v: LedgerView, d: TransactionDraft) -> Option<EngineError> {
    if d.amount <= 0 {
        Some(EngineError::NonPositiveAmount)
    } else if d.amount > MAX_AMOUNT {
        Some(EngineError::AmountOutOfRange)
    } else if !d.date.valid() {
        Some(EngineError::MalformedDate)
    } else if !has_account(v.accounts, d.account_id as int) {
        Some(EngineError::AccountNotFound)
    } else if d.transaction_type is Transfer && d.to_account_id is None {
        Some(EngineError::DestinationRequired)
    } else if d.transaction_type is Transfer && d.to_account_id == Some(d.account_id) {
        Some(EngineError::SelfTransfer)
    } else if d.transaction_type is Transfer && !has_account(
        v.accounts,
        d.to_account_id.unwrap() as int,
    ) {
        Some(EngineError::DestinationNotFound)
    } else if d.category_id is Some && !has_category(v.categories, d.category_id.unwrap() as int) {
        Some(EngineError::CategoryNotFound)
    } else {
        None
    }
}

/// Why the poster refuses a draft; `None` for a draft that is written.
pub open spec fn draft_error(v: LedgerView, d: TransactionDraft) -> Option<EngineError> {
    if draft_rule_error(v, d) is Some {
        draft_rule_error(v, d)
    } else if v.postings.len() >= MAX_ROWS || v.next_transaction_id > MAX_ID {
        Some(EngineError::CapacityExceeded)
    } else {
        None
    }
}

/// Why a transaction is not taken back into the ledger under the
/// identifier that it had; `None` for one that is.
pub open spec fn restore_error(v: LedgerView, id: int, d: TransactionDraft) -> Option<
    EngineError,
> {
    if draft_rule_error(v, d) is Some {
        draft_rule_error(v, d)
    } else if id < 1 || id > MAX_ID {
        Some(EngineError::InvalidId)
    } else if has_transaction(v.postings, id) {
        Some(EngineError::DuplicateId)
    } else if v.postings.len() >= MAX_ROWS {
        Some(EngineError::CapacityExceeded)
    } else {
        None
    }
}

/// `after` is `before` with the transaction `t` and its entries appended,
/// and nothing else changed but the next identifier.
pub open spec fn posted_as(before: LedgerView, after: LedgerView, t: Transaction) -> bool {
    &&& after.accounts == before.accounts
    &&& after.categories == before.categories
    &&& after.next_account_id == before.next_account_id
    &&& after.next_category_id == before.next_category_id
    &&& after.next_transaction_id == (if t.id + 1 > before.next_transaction_id {
        t.id + 1
    } else {
        before.next_transaction_id
    })
    &&& after.postings.len() == before.postings.len() + 1
    &&& after.postings.drop_last() == before.postings
    &&& after.postings.last().transaction == t
    &&& after.postings.last().entries@ == entries_for(t)
}

/// The transaction names the account, as its own or as its destination.
pub open spec fn uses_account(t: Transaction, id: int) -> bool {
    t.account_id == id || t.to_account_id == Some(id as i64)
}

/// Some transaction of the ledger names the account.
pub open spec fn account_in_use(postings: Seq<PostedTransaction>, id: int) -> bool {
    exists|i: int|
        0 <= i < postings.len() && uses_account((#[trigger] postings[i]).transaction, id)
}

/// Some transaction of the ledger names the category.
pub open spec fn category_in_use(postings: Seq<PostedTransaction>, id: int) -> bool {
    exists|i: int|
        0 <= i < postings.len() && (#[trigger] postings[i]).transaction.category_id == Some(
            id as i64,
        )
}

/// Some category has the given category as its parent.
pub open spec fn category_has_children(categories: Seq<Category>, id: int) -> bool {
    exists|i: int|
        0 <= i < categories.len() && (#[trigger] categories[i]).parent_id == Some(id as i64)
}

/// The sequence without its item at `i`, or unchanged where `i` is `None`.
pub open spec fn without<T>(s: Seq<T>, i: Option<int>) -> Seq<T> {
    match i {
        Some(k) => s.remove(k),
        None => s,
    }
}

/// What is asked of `add_account`.
pub struct NewAccount {
    pub group_id: i64,
    pub account_type: crate::model::AccountType,
    pub name: String,
    pub initial_balance: i64,
    pub currency: crate::model::CurrencyCode,
}

/// Why an account is not added; `None` for one that is.
pub open spec fn account_error(v: LedgerView, id: int, a: NewAccount) -> Option<EngineError> {
    if a.initial_balance < -MAX_AMOUNT || a.initial_balance > MAX_AMOUNT {
        Some(EngineError::AmountOutOfRange)
    } else if id < 1 || id > MAX_ID {
        Some(EngineError::InvalidId)
    } else if has_account(v.accounts, id) {
        Some(EngineError::DuplicateId)
    } else if v.accounts.len() >= MAX_ROWS {
        Some(EngineError::CapacityExceeded)
    } else {
        None
    }
}

pub open spec fn account_from(id: int, a: NewAccount) -> Account {
    Account {
        id: id as i64,
        group_id: a.group_id,
        account_type: a.account_type,
        name: a.name,
        initial_balance: a.initial_balance,
        currency: a.currency,
    }
}

/// `after` is `before` with the account `a` appended.
pub open spec fn account_added(before: LedgerView, after: LedgerView, a: Account) -> bool {
    &&& after.accounts == before.accounts.push(a)
    &&& after.categories == before.categories
    &&& after.postings == before.postings
    &&& after.next_account_id == (if a.id + 1 > before.next_account_id {
        a.id + 1
    } else {
        before.next_account_id
    })
    &&& after.next_category_id == before.next_category_id
    &&& after.next_transaction_id == before.next_transaction_id
}

/// Why a category is not added; `None` for one that is.
pub open spec fn category_error(v: LedgerView, c: Category) -> Option<EngineError> {
    if c.parent_id is Some && !has_category(v.categories, c.parent_id.unwrap() as int) {
        Some(EngineError::ParentNotFound)
    } else if c.id < 1 || c.id > MAX_ID {
        Some(EngineError::InvalidId)
    } else if has_category(v.categories, c.id as int) {
        Some(EngineError::DuplicateId)
    } else if v.categories.len() >= MAX_ROWS {
        Some(EngineError::CapacityExceeded)
    } else {
        None
    }
}

/// `after` is `before` with the category `c` appended.
pub open spec fn category_added(before: LedgerView, after: LedgerView, c: Category) -> bool {
    &&& after.accounts == before.accounts
    &&& after.categories == before.categories.push(c)
    &&& after.postings == before.postings
    &&& after.next_account_id == before.next_account_id
    &&& after.next_category_id == (if c.id + 1 > before.next_category_id {
        c.id + 1
    } else {
        before.next_category_id
    })
    &&& after.next_transaction_id == before.next_transaction_id
}

/// Why a category is not changed; `None` for a change that is made.
pub open spec fn category_update_error(
    v: LedgerView,
    id: int,
    name: Option<String>,
    parent_id: Option<i64>,
) -> Option<EngineError> {
    if !has_category(v.categories, id) {
        Some(EngineError::CategoryNotFound)
    } else if parent_id is Some && parent_id.unwrap() == id {
        Some(EngineError::SelfParent)
    } else if parent_id is Some && !has_category(v.categories, parent_id.unwrap() as int) {
        Some(EngineError::ParentNotFound)
    } else if name is None && parent_id is None {
        Some(EngineError::NothingToUpdate)
    } else {
        None
    }
}

/// The category `c` with the name and the parent replaced that are given.
pub open spec fn amended_category(c: Category, name: Option<String>, parent_id: Option<i64>)
    -> Category {
    Category {
        id: c.id,
        parent_id: if parent_id is Some {
            parent_id
        } else {
            c.parent_id
        },
        name: if name is Some {
            name.unwrap()
        } else {
            c.name
        },
        category_type: c.category_type,
    }
}

/// Why a transaction is not changed; `None` for a change that is made.
pub open spec fn amend_error(
    v: LedgerView,
    id: int,
    date: Option<Date>,
    category_id: Option<i64>,
    memo: Option<String>,
) -> Option<EngineError> {
    if !has_transaction(v.postings, id) {
        Some(EngineError::TransactionNotFound)
    } else if date is None && category_id is None && memo is None {
        Some(EngineError::NothingToUpdate)
    } else if date is Some && !date.unwrap().valid() {
        Some(EngineError::MalformedDate)
    } else if category_id is Some && !has_category(v.categories, category_id.unwrap() as int) {
        Some(EngineError::CategoryNotFound)
    } else {
        None
    }
}

/// The transaction `t` with the date, the category and the memo replaced
/// that are given. Amount, kind and accounts stay.
pub open spec fn amended_transaction(
    t: Transaction,
    date: Option<Date>,
    category_id: Option<i64>,
    memo: Option<String>,
) -> Transaction {
    Transaction {
        id: t.id,
        date: if date is Some {
            date.unwrap()
        } else {
            t.date
        },
        transaction_type: t.transaction_type,
        amount: t.amount,
        account_id: t.account_id,
        to_account_id: t.to_account_id,
        category_id: if category_id is Some {
            category_id
        } else {
            t.category_id
        },
        memo: if memo is Some {
            memo
        } else {
            t.memo
        },
        photo_path: t.photo_path,
        auto_settlement: t.auto_settlement,
    }
}

pub proof fn lemma_has_account_remove(accounts: Seq<Account>, k: int, id: int)
    requires
        0 <= k < accounts.len(),
        has_account(accounts, id),
        accounts[k].id != id,
    ensures
        has_account(accounts.remove(k), id),
{
    let i = choose|i: int| 0 <= i < accounts.len() && #[trigger] accounts[i].id == id;
    if i < k {
        assert(accounts.remove(k)[i].id == id);
    } else {
        assert(accounts.remove(k)[i - 1].id == id);
    }
}

pub proof fn lemma_has_category_remove(categories: Seq<Category>, k: int, id: int)
    requires
        0 <= k < categories.len(),
        has_category(categories, id),
        categories[k].id != id,
    ensures
        has_category(categories.remove(k), id),
{
    let i = choose|i: int| 0 <= i < categories.len() && #[trigger] categories[i].id == id;
    if i < k {
        assert(categories.remove(k)[i].id == id);
    } else {
        assert(categories.remove(k)[i - 1].id == id);
    }
}

pub proof fn lemma_has_category_update(categories: Seq<Category>, k: int, c: Category, id: int)
    requires
        0 <= k < categories.len(),
        has_category(categories, id),
        c.id == categories[k].id,
    ensures
        has_category(categories.update(k, c), id),
{
    let i = choose|i: int| 0 <= i < categories.len() && #[trigger] categories[i].id == id;
    assert(categories.update(k, c)[i].id == id);
}

/// The sum of the debits of some journal entries.
pub open spec fn total_debit(entries: Seq<JournalEntry>) -> int {
    seq_sum(entries, |e: JournalEntry| e.debit as int)
}

/// The sum of the credits of some journal entries.
pub open spec fn total_credit(entries: Seq<JournalEntry>) -> int {
    seq_sum(entries, |e: JournalEntry| e.credit as int)
}

/// The debits and the credits of the entries that a transaction owns: a
/// transfer debits as much as it credits, income is a debit alone and an
/// expense a credit alone.
pub proof fn lemma_entry_totals(t: Transaction)
    requires
        transaction_ok(t),
    ensures
        t.transaction_type is Transfer ==> total_debit(entries_for(t)) == t.amount
            && total_credit(entries_for(t)) == t.amount,
        t.transaction_type is Income ==> total_debit(entries_for(t)) == t.amount && total_credit(
            entries_for(t),
        ) == 0,
        t.transaction_type is Expense ==> total_debit(entries_for(t)) == 0 && total_credit(
            entries_for(t),
        ) == t.amount,
{
    let es = entries_for(t);
    let fd = |e: JournalEntry| e.debit as int;
    let fc = |e: JournalEntry| e.credit as int;
    reveal_with_fuel(seq_sum, 3);
    if t.transaction_type is Transfer {
        assert(es.drop_last().len() == 1);
        assert(es.drop_last().drop_last().len() == 0);
        assert(es.last() == es[1]);
        assert(es.drop_last().last() == es[0]);
        assert(seq_sum(es, fd) == fd(es[0]) + fd(es[1]));
        assert(seq_sum(es, fc) == fc(es[0]) + fc(es[1]));
    } else {
        assert(es.drop_last().len() == 0);
        assert(es.last() == es[0]);
        assert(seq_sum(es, fd) == fd(es[0]));
        assert(seq_sum(es, fc) == fc(es[0]));
    }
}

/// Every transfer of a well-formed ledger is balanced: the debits of its
/// journal entries sum to the same amount as their credits.
pub proof fn lemma_transfers_balance(v: LedgerView, k: int)
    requires
        v.wf(),
        0 <= k < v.postings.len(),
        v.postings[k].transaction.transaction_type is Transfer,
    ensures
        total_debit(v.postings[k].entries@) == total_credit(v.postings[k].entries@),
{
    assert(posting_ok(v.postings[k]));
    lemma_entry_totals(v.postings[k].transaction);
}

/// The place of the account with the given identifier.
pub open spec fn account_index(accounts: Seq<Account>, id: int) -> int {
    choose|i: int| 0 <= i < accounts.len() && (#[trigger] accounts[i]).id == id
}

/// The account with the given identifier.
pub open spec fn account_with_id(accounts: Seq<Account>, id: int) -> Account {
    accounts[account_index(accounts, id)]
}

/// Among accounts with distinct identifiers, the place of an identifier
/// is the only place that holds it.
pub proof fn lemma_account_index(accounts: Seq<Account>, k: int)
    requires
        accounts_distinct(accounts),
        0 <= k < accounts.len(),
    ensures
        account_index(accounts, accounts[k].id as int) == k,
{
    let id = accounts[k].id as int;
    let i = account_index(accounts, id);
    assert(0 <= i < accounts.len() && accounts[i].id == id);
    if i < k {
        assert(accounts[i].id != accounts[k].id);
    } else if k < i {
        assert(accounts[k].id != accounts[i].id);
    }
}

/// The place of the category with the given identifier.
pub open spec fn category_index(categories: Seq<Category>, id: int) -> int {
    choose|i: int| 0 <= i < categories.len() && (#[trigger] categories[i]).id == id
}

/// The category with the given identifier.
pub open spec fn category_with_id(categories: Seq<Category>, id: int) -> Category {
    categories[category_index(categories, id)]
}

/// Among categories with distinct identifiers, the place of an identifier
/// is the only place that holds it.
pub proof fn lemma_category_index(categories: Seq<Category>, k: int)
    requires
        categories_distinct(categories),
        0 <= k < categories.len(),
    ensures
        category_index(categories, categories[k].id as int) == k,
{
    let id = categories[k].id as int;
    let i = category_index(categories, id);
    assert(0 <= i < categories.len() && categories[i].id == id);
    if i < k {
        assert(categories[i].id != categories[k].id);
    } else if k < i {
        assert(categories[k].id != categories[i].id);
    }
}

/// The ledger store.
pub struct Ledger {
    accounts: Vec<Account>,
    categories: Vec<Category>,
    postings: Vec<PostedTransaction>,
    next_account_id: i64,
    next_category_id: i64,
    next_transaction_id: i64,
}

impl View for Ledger {
    type V = LedgerView;

    closed spec fn view(&self) -> LedgerView {
        LedgerView {
            accounts: self.accounts@,
            categories: self.categories@,
            postings: self.postings@,
            next_account_id: self.next_account_id as int,
            next_category_id: self.next_category_id as int,
            next_transaction_id: self.next_transaction_id as int,
        }
    }
}

impl Ledger {
    /// The invariant of the store.
    pub open spec fn wf(&self) -> bool {
        self@.wf()
    }

    /// An empty ledger.
    pub fn new() -> (r: Ledger)
        ensures
            r.wf(),
            r@.accounts.len() == 0,
            r@.categories.len() == 0,
            r@.postings.len() == 0,
            r@.next_account_id == 1,
            r@.next_category_id == 1,
            r@.next_transaction_id == 1,
    {
        Ledger {
            accounts: Vec::new(),
            categories: Vec::new(),
            postings: Vec::new(),
            next_account_id: 1,
            next_category_id: 1,
            next_transaction_id: 1,
        }
    }

    pub fn accounts(&self) -> (r: &Vec<Account>)
        ensures
            r@ == self@.accounts,
    {
        &self.accounts
    }

    pub fn categories(&self) -> (r: &Vec<Category>)
        ensures
            r@ == self@.categories,
    {
        &self.categories
    }

    pub fn postings(&self) -> (r: &Vec<PostedTransaction>)
        ensures
            r@ == self@.postings,
    {
        &self.postings
    }

    /// The place of the account with the given identifier.
    pub fn find_account(&self, id: i64) -> (r: Option<usize>)
        ensures
            match r {
                Some(i) => i < self@.accounts.len() && self@.accounts[i as int].id == id,
                None => !has_account(self@.accounts, id as int),
            },
    {
        let mut i: usize = 0;
        while i < self.accounts.len()
            invariant
                i <= self.accounts.len(),
                forall|k: int| 0 <= k < i ==> (#[trigger] self.accounts[k]).id != id,
            decreases self.accounts.len() - i,
        {
            if self.accounts[i].id == id {
                return Some(i);
            }
            i += 1;
        }
        None
    }

    /// The place of the category with the given identifier.
    pub fn find_category(&self, id: i64) -> (r: Option<usize>)
        ensures
            match r {
                Some(i) => i < self@.categories.len() && self@.categories[i as int].id == id,
                None => !has_category(self@.categories, id as int),
            },
    {
        let mut i: usize = 0;
        while i < self.categories.len()
            invariant
                i <= self.categories.len(),
                forall|k: int| 0 <= k < i ==> (#[trigger] self.categories[k]).id != id,
            decreases self.categories.len() - i,
        {
            if self.categories[i].id == id {
                return Some(i);
            }
            i += 1;
        }
        None
    }

    /// The place of the transaction with the given identifier.
    pub fn find_transaction(&self, id: i64) -> (r: Option<usize>)
        ensures
            match r {
                Some(i) => i < self@.postings.len() && self@.postings[i as int].transaction.id
                    == id,
                None => !has_transaction(self@.postings, id as int),
            },
    {
        let mut i: usize = 0;
        while i < self.postings.len()
            invariant
                i <= self.postings.len(),
                forall|k: int| 0 <= k < i ==> (#[trigger] self.postings[k]).transaction.id != id,
            decreases self.postings.len() - i,
        {
            if self.postings[i].transaction.id == id {
                return Some(i);
            }
            i += 1;
        }
        None
    }

    /// Tests a draft against the rules of the poster.
    fn check_draft(&self, draft: &TransactionDraft) -> (r: Result<(), EngineError>)
        ensures
            match r {
                Ok(_) => draft_rule_error(self@, *draft) is None,
                Err(e) => draft_rule_error(self@, *draft) == Some(e),
            },
    {
        if draft.amount <= 0 {
            return Err(EngineError::NonPositiveAmount);
        }
        if draft.amount > MAX_AMOUNT {
            return Err(EngineError::AmountOutOfRange);
        }
        if !draft.date.is_valid() {
            return Err(EngineError::MalformedDate);
        }
        if self.find_account(draft.account_id).is_none() {
            return Err(EngineError::AccountNotFound);
        }
        let is_transfer = match draft.transaction_type {
            TransactionType::Transfer => true,
            _ => false,
        };
        if is_transfer {
            match draft.to_account_id {
                None => {
                    return Err(EngineError::DestinationRequired);
                },
                Some(to) => {
                    if to == draft.account_id {
                        return Err(EngineError::SelfTransfer);
                    }
                    if self.find_account(to).is_none() {
                        return Err(EngineError::DestinationNotFound);
                    }
                },
            }
        }
        match draft.category_id {
            Some(c) => {
                if self.find_category(c).is_none() {
                    return Err(EngineError::CategoryNotFound);
                }
            },
            None => {},
        }
        Ok(())
    }

    /// Appends a checked draft under a fresh identifier, with its entries.
    fn append(&mut self, id: i64, draft: TransactionDraft)
        requires
            old(self).wf(),
            draft_rule_error(old(self)@, draft) is None,
            1 <= id <= MAX_ID,
            !has_transaction(old(self)@.postings, id as int),
            old(self)@.postings.len() < MAX_ROWS,
        ensures
            final(self).wf(),
            posted_as(old(self)@, final(self)@, transaction_from(id as int, draft)),
    {
        let mut entries: Vec<JournalEntry> = Vec::new();
        match draft.transaction_type {
            TransactionType::Income => {
                entries.push(
                    JournalEntry {
                        id: 2 * id - 1,
                        transaction_id: id,
                        account_id: draft.account_id,
                        debit: draft.amount,
                        credit: 0,
                    },
                );
            },
            TransactionType::Expense => {
                entries.push(
                    JournalEntry {
                        id: 2 * id - 1,
                        transaction_id: id,
                        account_id: draft.account_id,
                        debit: 0,
                        credit: draft.amount,
                    },
                );
            },
            TransactionType::Transfer => {
                entries.push(
                    JournalEntry {
                        id: 2 * id - 1,
                        transaction_id: id,
                        account_id: draft.account_id,
                        debit: 0,
                        credit: draft.amount,
                    },
                );
                entries.push(
                    JournalEntry {
                        id: 2 * id,
                        transaction_id: id,
                        account_id: draft.to_account_id.unwrap(),
                        debit: draft.amount,
                        credit: 0,
                    },
                );
            },
        }
        let transaction = Transaction {
            id,
            date: draft.date,
            transaction_type: draft.transaction_type,
            amount: draft.amount,
            account_id: draft.account_id,
            to_account_id: draft.to_account_id,
            category_id: draft.category_id,
            memo: draft.memo,
            photo_path: draft.photo_path,
            auto_settlement: draft.auto_settlement,
        };
        assert(entries@ =~= entries_for(transaction));
        assert(transaction == transaction_from(id as int, draft));
        let ghost before = self@;
        self.postings.push(PostedTransaction { transaction, entries });
        if id >= self.next_transaction_id {
            self.next_transaction_id = id + 1;
        }
        proof {
            let after = self@;
            assert(after.postings.drop_last() =~= before.postings);
            assert forall|i: int| 0 <= i < after.postings.len() implies posting_ok(
                #[trigger] after.postings[i],
            ) && after.postings[i].transaction.id < after.next_transaction_id by {
                if i < before.postings.len() {
                    assert(after.postings[i] == before.postings[i]);
                }
            }
            assert forall|i: int| 0 <= i < after.postings.len() implies references_ok(
                after.accounts,
                after.categories,
                (#[trigger] after.postings[i]).transaction,
            ) by {
                if i < before.postings.len() {
                    assert(after.postings[i] == before.postings[i]);
                }
            }
            assert forall|i: int, j: int| 0 <= i < j < after.postings.len() implies (
            #[trigger] after.postings[i]).transaction.id != (
            #[trigger] after.postings[j]).transaction.id by {
                assert(after.postings[i] == before.postings[i]);
                if j < before.postings.len() {
                    assert(after.postings[j] == before.postings[j]);
                }
            }
        }
    }

    /// Writes a transaction together with its journal entries, or refuses
    /// the draft and writes nothing.
    pub fn post(&mut self, draft: TransactionDraft) -> (r: Result<i64, EngineError>)
        requires
            old(self).wf(),
        ensures
            final(self).wf(),
            match r {
                Ok(id) => draft_error(old(self)@, draft) is None
                    && id == old(self)@.next_transaction_id
                    && posted_as(
                    old(self)@,
                    final(self)@,
                    transaction_from(id as int, draft),
                ),
                Err(e) => draft_error(old(self)@, draft) == Some(e) && final(self)@ == old(self)@,
            },
    {
        match self.check_draft(&draft) {
            Ok(_) => {},
            Err(e) => {
                return Err(e);
            },
        }
        if self.postings.len() >= MAX_ROWS || self.next_transaction_id > MAX_ID {
            return Err(EngineError::CapacityExceeded);
        }
        let id = self.next_transaction_id;
        self.append(id, draft);
        Ok(id)
    }

    /// Takes a transaction back into the ledger under the identifier that
    /// it had, deriving its journal entries anew.
    pub fn restore_transaction(&mut self, id: i64, draft: TransactionDraft) -> (r: Result<
        (),
        EngineError,
    >)
        requires
            old(self).wf(),
        ensures
            final(self).wf(),
            match r {
                Ok(_) => restore_error(old(self)@, id as int, draft) is None && posted_as(
                    old(self)@,
                    final(self)@,
                    transaction_from(id as int, draft),
                ),
                Err(e) => restore_error(old(self)@, id as int, draft) == Some(e) && final(self)@
                    == old(self)@,
            },
    {
        match self.check_draft(&draft) {
            Ok(_) => {},
            Err(e) => {
                return Err(e);
            },
        }
        if id < 1 || id > MAX_ID {
            return Err(EngineError::InvalidId);
        }
        if self.find_transaction(id).is_some() {
            return Err(EngineError::DuplicateId);
        }
        if self.postings.len() >= MAX_ROWS {
            return Err(EngineError::CapacityExceeded);
        }
        self.append(id, draft);
        Ok(())
    }

    pub fn next_account_id(&self) -> (r: i64)
        ensures
            r == self@.next_account_id,
    {
        self.next_account_id
    }

    pub fn next_category_id(&self) -> (r: i64)
        ensures
            r == self@.next_category_id,
    {
        self.next_category_id
    }

    pub fn next_transaction_id(&self) -> (r: i64)
        ensures
            r == self@.next_transaction_id,
    {
        self.next_transaction_id
    }

    /// Whether some transaction names the account as source or destination.
    pub fn is_account_in_use(&self, account_id: i64) -> (b: bool)
        ensures
            b == account_in_use(self@.postings, account_id as int),
    {
        let mut i: usize = 0;
        while i < self.postings.len()
            invariant
                i <= self.postings.len(),
                forall|k: int|
                    0 <= k < i ==> !uses_account(
                        (#[trigger] self.postings[k]).transaction,
                        account_id as int,
                    ),
            decreases self.postings.len() - i,
        {
            let t = &self.postings[i].transaction;
            let to_matches = match t.to_account_id {
                Some(to) => to == account_id,
                None => false,
            };
            if t.account_id == account_id || to_matches {
                return true;
            }
            i += 1;
        }
        false
    }

    /// Whether some transaction names the category.
    pub fn is_category_in_use(&self, category_id: i64) -> (b: bool)
        ensures
            b == category_in_use(self@.postings, category_id as int),
    {
        let mut i: usize = 0;
        while i < self.postings.len()
            invariant
                i <= self.postings.len(),
                forall|k: int|
                    0 <= k < i ==> (#[trigger] self.postings[k]).transaction.category_id != Some(
                        category_id,
                    ),
            decreases self.postings.len() - i,
        {
            let found = match self.postings[i].transaction.category_id {
                Some(c) => c == category_id,
                None => false,
            };
            if found {
                return true;
            }
            i += 1;
        }
        false
    }

    /// Whether some category has the given one as its parent.
    pub fn has_children(&self, category_id: i64) -> (b: bool)
        ensures
            b == category_has_children(self@.categories, category_id as int),
    {
        let mut i: usize = 0;
        while i < self.categories.len()
            invariant
                i <= self.categories.len(),
                forall|k: int|
                    0 <= k < i ==> (#[trigger] self.categories[k]).parent_id != Some(category_id),
            decreases self.categories.len() - i,
        {
            let found = match self.categories[i].parent_id {
                Some(p) => p == category_id,
                None => false,
            };
            if found {
                return true;
            }
            i += 1;
        }
        false
    }

    /// Adds an account under the given identifier.
    pub fn restore_account(&mut self, id: i64, account: NewAccount) -> (r: Result<
        (),
        EngineError,
    >)
        requires
            old(self).wf(),
        ensures
            final(self).wf(),
            match r {
                Ok(_) => account_error(old(self)@, id as int, account) is None && account_added(
                    old(self)@,
                    final(self)@,
                    account_from(id as int, account),
                ),
                Err(e) => account_error(old(self)@, id as int, account) == Some(e)
                    && final(self)@ == old(self)@,
            },
    {
        if account.initial_balance < -MAX_AMOUNT || account.initial_balance > MAX_AMOUNT {
            return Err(EngineError::AmountOutOfRange);
        }
        if id < 1 || id > MAX_ID {
            return Err(EngineError::InvalidId);
        }
        if self.find_account(id).is_some() {
            return Err(EngineError::DuplicateId);
        }
        if self.accounts.len() >= MAX_ROWS {
            return Err(EngineError::CapacityExceeded);
        }
        let ghost before = self@;
        self.accounts.push(
            Account {
                id,
                group_id: account.group_id,
                account_type: account.account_type,
                name: account.name,
                initial_balance: account.initial_balance,
                currency: account.currency,
            },
        );
        if id >= self.next_account_id {
            self.next_account_id = id + 1;
        }
        proof {
            let after = self@;
            assert forall|i: int| 0 <= i < after.accounts.len() implies account_ok(
                #[trigger] after.accounts[i],
            ) && after.accounts[i].id < after.next_account_id by {
                if i < before.accounts.len() {
                    assert(after.accounts[i] == before.accounts[i]);
                }
            }
            assert forall|i: int, j: int| 0 <= i < j < after.accounts.len() implies (
            #[trigger] after.accounts[i]).id != (#[trigger] after.accounts[j]).id by {
                assert(after.accounts[i] == before.accounts[i]);
                if j < before.accounts.len() {
                    assert(after.accounts[j] == before.accounts[j]);
                }
            }
            assert forall|x: int| has_account(before.accounts, x) implies has_account(
                after.accounts,
                x,
            ) by {
                let i = choose|i: int|
                    0 <= i < before.accounts.len() && #[trigger] before.accounts[i].id == x;
                assert(after.accounts[i].id == x);
            }
        }
        Ok(())
    }

    /// Deletes an account. An account that a transaction names is kept,
    /// and the request refused.
    pub fn delete_account(&mut self, account_id: i64) -> (r: Result<(), EngineError>)
        requires
            old(self).wf(),
        ensures
            final(self).wf(),
            match r {
                Ok(_) => {
                    &&& !account_in_use(old(self)@.postings, account_id as int)
                    &&& !has_account(final(self)@.accounts, account_id as int)
                    &&& (!has_account(old(self)@.accounts, account_id as int) ==> final(self)@
                        == old(self)@)
                    &&& forall|k: int|
                        0 <= k < old(self)@.accounts.len()
                            && (#[trigger] old(self)@.accounts[k]).id == account_id
                            ==> final(self)@ == (LedgerView {
                            accounts: old(self)@.accounts.remove(k),
                            ..old(self)@
                        })
                },
                Err(e) => e == EngineError::AccountInUse && account_in_use(
                    old(self)@.postings,
                    account_id as int,
                ) && final(self)@ == old(self)@,
            },
    {
        if self.is_account_in_use(account_id) {
            return Err(EngineError::AccountInUse);
        }
        let ghost before = self@;
        match self.find_account(account_id) {
            None => {},
            Some(k) => {
                self.accounts.remove(k);
                proof {
                    let after = self@;
                    assert forall|i: int| 0 <= i < after.accounts.len() implies account_ok(
                        #[trigger] after.accounts[i],
                    ) && after.accounts[i].id < after.next_account_id by {
                        if i < k {
                            assert(after.accounts[i] == before.accounts[i]);
                        } else {
                            assert(after.accounts[i] == before.accounts[i + 1]);
                        }
                    }
                    assert forall|i: int, j: int| 0 <= i < j < after.accounts.len() implies (
                    #[trigger] after.accounts[i]).id != (#[trigger] after.accounts[j]).id by {
                        let i0 = if i < k {
                            i
                        } else {
                            i + 1
                        };
                        let j0 = if j < k {
                            j
                        } else {
                            j + 1
                        };
                        assert(after.accounts[i] == before.accounts[i0]);
                        assert(after.accounts[j] == before.accounts[j0]);
                    }
                    assert forall|i: int| 0 <= i < after.postings.len() implies references_ok(
                        after.accounts,
                        after.categories,
                        (#[trigger] after.postings[i]).transaction,
                    ) by {
                        let t = before.postings[i].transaction;
                        assert(references_ok(before.accounts, before.categories, t));
                        assert(!uses_account(t, account_id as int));
                        lemma_has_account_remove(before.accounts, k as int, t.account_id as int);
                        if t.transaction_type is Transfer {
                            lemma_has_account_remove(
                                before.accounts,
                                k as int,
                                t.to_account_id.unwrap() as int,
                            );
                        }
                    }
                    assert(!has_account(after.accounts, account_id as int)) by {
                        if has_account(after.accounts, account_id as int) {
                            let i = choose|i: int|
                                0 <= i < after.accounts.len() && #[trigger] after.accounts[i].id
                                    == account_id;
                            let i0 = if i < k {
                                i
                            } else {
                                i + 1
                            };
                            assert(after.accounts[i] == before.accounts[i0]);
                            assert(before.accounts[i0].id == before.accounts[k as int].id);
                        }
                    }
                    assert forall|j: int|
                        0 <= j < before.accounts.len() && (#[trigger] before.accounts[j]).id
                            == account_id implies j == k by {
                        assert(before.accounts[k as int].id == account_id);
                    }
                }
            },
        }
        Ok(())
    }

    /// Adds a category under the identifier that it carries.
    pub fn restore_category(&mut self, category: Category) -> (r: Result<(), EngineError>)
        requires
            old(self).wf(),
        ensures
            final(self).wf(),
            match r {
                Ok(_) => category_error(old(self)@, category) is None && category_added(
                    old(self)@,
                    final(self)@,
                    category,
                ),
                Err(e) => category_error(old(self)@, category) == Some(e) && final(self)@ == old(self)@,
            },
    {
        match category.parent_id {
            Some(parent) => {
                if self.find_category(parent).is_none() {
                    return Err(EngineError::ParentNotFound);
                }
            },
            None => {},
        }
        if category.id < 1 || category.id > MAX_ID {
            return Err(EngineError::InvalidId);
        }
        if self.find_category(category.id).is_some() {
            return Err(EngineError::DuplicateId);
        }
        if self.categories.len() >= MAX_ROWS {
            return Err(EngineError::CapacityExceeded);
        }
        let ghost before = self@;
        let id = category.id;
        self.categories.push(category);
        if id >= self.next_category_id {
            self.next_category_id = id + 1;
        }
        proof {
            let after = self@;
            assert forall|x: int| has_category(before.categories, x) implies has_category(
                after.categories,
                x,
            ) by {
                let i = choose|i: int|
                    0 <= i < before.categories.len() && #[trigger] before.categories[i].id == x;
                assert(after.categories[i].id == x);
            }
            assert forall|i: int| 0 <= i < after.categories.len() implies 1 <= (
            #[trigger] after.categories[i]).id < after.next_category_id by {
                if i < before.categories.len() {
                    assert(after.categories[i] == before.categories[i]);
                }
            }
            assert forall|i: int, j: int| 0 <= i < j < after.categories.len() implies (
            #[trigger] after.categories[i]).id != (#[trigger] after.categories[j]).id by {
                assert(after.categories[i] == before.categories[i]);
                if j < before.categories.len() {
                    assert(after.categories[j] == before.categories[j]);
                }
            }
            assert forall|i: int| 0 <= i < after.categories.len() implies ((
            #[trigger] after.categories[i]).parent_id matches Some(p) ==> p
                != after.categories[i].id && has_category(after.categories, p as int)) by {
                if i < before.categories.len() {
                    assert(after.categories[i] == before.categories[i]);
                }
            }
        }
        Ok(())
    }

    /// Changes the name or the parent of a category.
    pub fn update_category(
        &mut self,
        id: i64,
        name: Option<String>,
        parent_id: Option<i64>,
    ) -> (r: Result<(), EngineError>)
        requires
            old(self).wf(),
        ensures
            final(self).wf(),
            match r {
                Ok(_) => {
                    &&& category_update_error(old(self)@, id as int, name, parent_id) is None
                    &&& forall|k: int|
                        0 <= k < old(self)@.categories.len()
                            && (#[trigger] old(self)@.categories[k]).id == id
                            ==> final(self)@ == (LedgerView {
                            categories: old(self)@.categories.update(
                                k,
                                amended_category(old(self)@.categories[k], name, parent_id),
                            ),
                            ..old(self)@
                        })
                },
                Err(e) => category_update_error(old(self)@, id as int, name, parent_id) == Some(e)
                    && final(self)@ == old(self)@,
            },
    {
        let k = match self.find_category(id) {
            Some(k) => k,
            None => {
                return Err(EngineError::CategoryNotFound);
            },
        };
        match parent_id {
            Some(parent) => {
                if parent == id {
                    return Err(EngineError::SelfParent);
                }
                if self.find_category(parent).is_none() {
                    return Err(EngineError::ParentNotFound);
                }
            },
            None => {},
        }
        if name.is_none() && parent_id.is_none() {
            return Err(EngineError::NothingToUpdate);
        }
        let ghost before = self@;
        let mut category = self.categories.remove(k);
        match name {
            Some(text) => {
                category.name = text;
            },
            None => {},
        }
        match parent_id {
            Some(parent) => {
                category.parent_id = Some(parent);
            },
            None => {},
        }
        self.categories.insert(k, category);
        proof {
            let after = self@;
            let c = amended_category(before.categories[k as int], name, parent_id);
            assert(after.categories =~= before.categories.update(k as int, c));
            assert forall|x: int| has_category(before.categories, x) implies has_category(
                after.categories,
                x,
            ) by {
                lemma_has_category_update(before.categories, k as int, c, x);
            }
            assert forall|i: int| 0 <= i < after.categories.len() implies ((
            #[trigger] after.categories[i]).parent_id matches Some(p) ==> p
                != after.categories[i].id && has_category(after.categories, p as int)) by {
                if i != k {
                    assert(after.categories[i] == before.categories[i]);
                }
            }
            assert forall|i: int, j: int| 0 <= i < j < after.categories.len() implies (
            #[trigger] after.categories[i]).id != (#[trigger] after.categories[j]).id by {
                assert(after.categories[i].id == before.categories[i].id);
                assert(after.categories[j].id == before.categories[j].id);
            }
            assert forall|i: int| 0 <= i < after.categories.len() implies 1 <= (
            #[trigger] after.categories[i]).id < after.next_category_id by {
                assert(after.categories[i].id == before.categories[i].id);
            }
            assert forall|i: int| 0 <= i < after.postings.len() implies references_ok(
                after.accounts,
                after.categories,
                (#[trigger] after.postings[i]).transaction,
            ) by {
                assert(references_ok(
                    before.accounts,
                    before.categories,
                    before.postings[i].transaction,
                ));
            }
            assert forall|j: int|
                0 <= j < before.categories.len() && (#[trigger] before.categories[j]).id
                    == id implies j == k by {
                assert(before.categories[k as int].id == id);
            }
        }
        Ok(())
    }

    /// Deletes a category. A category that a transaction names, or that
    /// has children, is kept, and the request refused.
    pub fn delete_category(&mut self, category_id: i64) -> (r: Result<(), EngineError>)
        requires
            old(self).wf(),
        ensures
            final(self).wf(),
            match r {
                Ok(_) => {
                    &&& !category_in_use(old(self)@.postings, category_id as int)
                    &&& !category_has_children(old(self)@.categories, category_id as int)
                    &&& !has_category(final(self)@.categories, category_id as int)
                    &&& (!has_category(old(self)@.categories, category_id as int) ==> final(self)@
                        == old(self)@)
                    &&& forall|k: int|
                        0 <= k < old(self)@.categories.len()
                            && (#[trigger] old(self)@.categories[k]).id == category_id
                            ==> final(self)@ == (LedgerView {
                            categories: old(self)@.categories.remove(k),
                            ..old(self)@
                        })
                },
                Err(e) => final(self)@ == old(self)@ && (if category_in_use(
                    old(self)@.postings,
                    category_id as int,
                ) {
                    e == EngineError::CategoryInUse
                } else {
                    e == EngineError::CategoryHasChildren && category_has_children(
                        old(self)@.categories,
                        category_id as int,
                    )
                }),
            },
    {
        if self.is_category_in_use(category_id) {
            return Err(EngineError::CategoryInUse);
        }
        if self.has_children(category_id) {
            return Err(EngineError::CategoryHasChildren);
        }
        let ghost before = self@;
        match self.find_category(category_id) {
            None => {},
            Some(k) => {
                self.categories.remove(k);
                proof {
                    let after = self@;
                    assert forall|i: int| 0 <= i < after.categories.len() implies 1 <= (
                    #[trigger] after.categories[i]).id < after.next_category_id by {
                        if i < k {
                            assert(after.categories[i] == before.categories[i]);
                        } else {
                            assert(after.categories[i] == before.categories[i + 1]);
                        }
                    }
                    assert forall|i: int, j: int| 0 <= i < j < after.categories.len() implies (
                    #[trigger] after.categories[i]).id != (#[trigger] after.categories[j]).id by {
                        let i0 = if i < k {
                            i
                        } else {
                            i + 1
                        };
                        let j0 = if j < k {
                            j
                        } else {
                            j + 1
                        };
                        assert(after.categories[i] == before.categories[i0]);
                        assert(after.categories[j] == before.categories[j0]);
                    }
                    assert forall|i: int| 0 <= i < after.categories.len() implies ((
                    #[trigger] after.categories[i]).parent_id matches Some(p) ==> p
                        != after.categories[i].id && has_category(after.categories, p as int)) by {
                        let i0 = if i < k {
                            i
                        } else {
                            i + 1
                        };
                        assert(after.categories[i] == before.categories[i0]);
                        let c = before.categories[i0];
                        if c.parent_id is Some {
                            lemma_has_category_remove(
                                before.categories,
                                k as int,
                                c.parent_id.unwrap() as int,
                            );
                        }
                    }
                    assert forall|i: int| 0 <= i < after.postings.len() implies references_ok(
                        after.accounts,
                        after.categories,
                        (#[trigger] after.postings[i]).transaction,
                    ) by {
                        let t = before.postings[i].transaction;
                        assert(references_ok(before.accounts, before.categories, t));
                        if t.category_id is Some {
                            lemma_has_category_remove(
                                before.categories,
                                k as int,
                                t.category_id.unwrap() as int,
                            );
                        }
                    }
                    assert(!has_category(after.categories, category_id as int)) by {
                        if has_category(after.categories, category_id as int) {
                            let i = choose|i: int|
                                0 <= i < after.categories.len()
                                    && #[trigger] after.categories[i].id == category_id;
                            let i0 = if i < k {
                                i
                            } else {
                                i + 1
                            };
                            assert(after.categories[i] == before.categories[i0]);
                            assert(before.categories[i0].id == before.categories[k as int].id);
                        }
                    }
                    assert forall|j: int|
                        0 <= j < before.categories.len() && (#[trigger] before.categories[j]).id
                            == category_id implies j == k by {
                        assert(before.categories[k as int].id == category_id);
                    }
                }
            },
        }
        Ok(())
    }

    /// Deletes a transaction together with its journal entries. Asking
    /// for a transaction that the ledger does not hold changes nothing.
    pub fn delete_transaction(&mut self, transaction_id: i64) -> (r: Result<(), EngineError>)
        requires
            old(self).wf(),
        ensures
            final(self).wf(),
            r is Ok,
            !has_transaction(final(self)@.postings, transaction_id as int),
            !has_transaction(old(self)@.postings, transaction_id as int) ==> final(self)@ == old(self)@,
            forall|k: int|
                0 <= k < old(self)@.postings.len()
                    && (#[trigger] old(self)@.postings[k]).transaction.id == transaction_id
                    ==> final(self)@ == (LedgerView {
                    postings: old(self)@.postings.remove(k),
                    ..old(self)@
                }),
    {
        let ghost before = self@;
        match self.find_transaction(transaction_id) {
            None => {},
            Some(k) => {
                self.postings.remove(k);
                proof {
                    let after = self@;
                    assert forall|i: int| 0 <= i < after.postings.len() implies (
                    #[trigger] after.postings[i]) == before.postings[if i < k {
                        i
                    } else {
                        i + 1
                    }] by {}
                    assert forall|i: int| 0 <= i < after.postings.len() implies posting_ok(
                        #[trigger] after.postings[i],
                    ) && after.postings[i].transaction.id < after.next_transaction_id by {
                        let i0 = if i < k {
                            i
                        } else {
                            i + 1
                        };
                        assert(after.postings[i] == before.postings[i0]);
                    }
                    assert forall|i: int, j: int| 0 <= i < j < after.postings.len() implies (
                    #[trigger] after.postings[i]).transaction.id != (
                    #[trigger] after.postings[j]).transaction.id by {
                        let i0 = if i < k {
                            i
                        } else {
                            i + 1
                        };
                        let j0 = if j < k {
                            j
                        } else {
                            j + 1
                        };
                        assert(after.postings[i] == before.postings[i0]);
                        assert(after.postings[j] == before.postings[j0]);
                    }
                    assert forall|i: int| 0 <= i < after.postings.len() implies references_ok(
                        after.accounts,
                        after.categories,
                        (#[trigger] after.postings[i]).transaction,
                    ) by {
                        let i0 = if i < k {
                            i
                        } else {
                            i + 1
                        };
                        assert(after.postings[i] == before.postings[i0]);
                    }
                    assert(!has_transaction(after.postings, transaction_id as int)) by {
                        if has_transaction(after.postings, transaction_id as int) {
                            let i = choose|i: int|
                                0 <= i < after.postings.len()
                                    && #[trigger] after.postings[i].transaction.id
                                    == transaction_id;
                            let i0 = if i < k {
                                i
                            } else {
                                i + 1
                            };
                            assert(after.postings[i] == before.postings[i0]);
                            assert(before.postings[i0].transaction.id
                                == before.postings[k as int].transaction.id);
                        }
                    }
                    assert forall|j: int|
                        0 <= j < before.postings.len() && (
                        #[trigger] before.postings[j]).transaction.id
                            == transaction_id implies j == k by {
                        assert(before.postings[k as int].transaction.id == transaction_id);
                    }
                }
            },
        }
        Ok(())
    }

    /// Changes the date, the category or the memo of a transaction. The
    /// amount, the kind, the accounts and the journal entries stay.
    pub fn amend_transaction(
        &mut self,
        id: i64,
        date: Option<Date>,
        category_id: Option<i64>,
        memo: Option<String>,
    ) -> (r: Result<(), EngineError>)
        requires
            old(self).wf(),
        ensures
            final(self).wf(),
            match r {
                Ok(_) => {
                    &&& amend_error(old(self)@, id as int, date, category_id, memo) is None
                    &&& final(self)@.accounts == old(self)@.accounts
                    &&& final(self)@.categories == old(self)@.categories
                    &&& final(self)@.next_account_id == old(self)@.next_account_id
                    &&& final(self)@.next_category_id == old(self)@.next_category_id
                    &&& final(self)@.next_transaction_id == old(self)@.next_transaction_id
                    &&& final(self)@.postings.len() == old(self)@.postings.len()
                    &&& forall|k: int|
                        0 <= k < old(self)@.postings.len()
                            ==> (#[trigger] final(self)@.postings[k]).entries == old(self)@.postings[k].entries
                            && final(self)@.postings[k].transaction == (if old(self)@.postings[k].transaction.id
                            == id {
                            amended_transaction(
                                old(self)@.postings[k].transaction,
                                date,
                                category_id,
                                memo,
                            )
                        } else {
                            old(self)@.postings[k].transaction
                        })
                },
                Err(e) => amend_error(old(self)@, id as int, date, category_id, memo) == Some(e)
                    && final(self)@ == old(self)@,
            },
    {
        let k = match self.find_transaction(id) {
            Some(k) => k,
            None => {
                return Err(EngineError::TransactionNotFound);
            },
        };
        if date.is_none() && category_id.is_none() && memo.is_none() {
            return Err(EngineError::NothingToUpdate);
        }
        match date {
            Some(d) => {
                if !d.is_valid() {
                    return Err(EngineError::MalformedDate);
                }
            },
            None => {},
        }
        match category_id {
            Some(c) => {
                if self.find_category(c).is_none() {
                    return Err(EngineError::CategoryNotFound);
                }
            },
            None => {},
        }
        let ghost before = self@;
        let mut posting = self.postings.remove(k);
        match date {
            Some(d) => {
                posting.transaction.date = d;
            },
            None => {},
        }
        match category_id {
            Some(c) => {
                posting.transaction.category_id = Some(c);
            },
            None => {},
        }
        match memo {
            Some(text) => {
                posting.transaction.memo = Some(text);
            },
            None => {},
        }
        proof {
            let t0 = before.postings[k as int].transaction;
            assert(posting_ok(before.postings[k as int]));
            assert(references_ok(before.accounts, before.categories, t0));
            assert(posting.transaction == amended_transaction(t0, date, category_id, memo));
            assert(entries_for(posting.transaction) =~= entries_for(t0));
        }
        let ghost amended = posting;
        self.postings.insert(k, posting);
        proof {
            let after = self@;
            assert(after.postings =~= before.postings.update(k as int, amended));
            assert forall|i: int| 0 <= i < after.postings.len() implies posting_ok(
                #[trigger] after.postings[i],
            ) && after.postings[i].transaction.id < after.next_transaction_id by {
                if i != k {
                    assert(after.postings[i] == before.postings[i]);
                }
            }
            assert forall|i: int, j: int| 0 <= i < j < after.postings.len() implies (
            #[trigger] after.postings[i]).transaction.id != (
            #[trigger] after.postings[j]).transaction.id by {
                assert(after.postings[i].transaction.id == before.postings[i].transaction.id);
                assert(after.postings[j].transaction.id == before.postings[j].transaction.id);
            }
            assert forall|i: int| 0 <= i < after.postings.len() implies references_ok(
                after.accounts,
                after.categories,
                (#[trigger] after.postings[i]).transaction,
            ) by {
                if i != k {
                    assert(after.postings[i] == before.postings[i]);
                }
            }
            assert forall|j: int| 0 <= j < before.postings.len() implies (
            #[trigger] after.postings[j]).entries == before.postings[j].entries
                && after.postings[j].transaction == (if before.postings[j].transaction.id == id {
                amended_transaction(before.postings[j].transaction, date, category_id, memo)
            } else {
                before.postings[j].transaction
            }) by {
                if j != k {
                    assert(after.postings[j] == before.postings[j]);
                    assert(before.postings[k as int].transaction.id == id);
                }
            }
        }
        Ok(())
    }

    /// Every identifier of a well-formed ledger is below the next one to
    /// be handed out, so that the next one is free.
    pub proof fn lemma_ids_below_next(&self)
        requires
            self.wf(),
        ensures
            !has_account(self@.accounts, self@.next_account_id),
            !has_category(self@.categories, self@.next_category_id),
            !has_transaction(self@.postings, self@.next_transaction_id),
    {
    }

    /// Tests a draft against the rules of the poster without writing it.
    pub fn check(&self, draft: &TransactionDraft) -> (r: Result<(), EngineError>)
        ensures
            match r {
                Ok(_) => draft_rule_error(self@, *draft) is None,
                Err(e) => draft_rule_error(self@, *draft) == Some(e),
            },
    {
        match self.check_draft(draft) {
            Ok(_) => Ok(()),
            Err(e) => Err(e),
        }
    }

    /// Puts the reference to a photo on a transaction, or takes it off.
    /// Gives the reference that the transaction carried before.
    pub fn set_photo_path(&mut self, id: i64, photo_path: Option<String>) -> (r: Result<
        Option<String>,
        EngineError,
    >)
        requires
            old(self).wf(),
        ensures
            final(self).wf(),
            match r {
                Ok(before) => {
                    &&& has_transaction(old(self)@.postings, id as int)
                    &&& final(self)@.accounts == old(self)@.accounts
                    &&& final(self)@.categories == old(self)@.categories
                    &&& final(self)@.postings.len() == old(self)@.postings.len()
                    &&& forall|k: int|
                        0 <= k < old(self)@.postings.len()
                            ==> (#[trigger] final(self)@.postings[k]).entries == old(self)@.postings[k].entries
                            && final(self)@.postings[k].transaction == (if old(self)@.postings[k].transaction.id
                            == id {
                            Transaction { photo_path, ..old(self)@.postings[k].transaction }
                        } else {
                            old(self)@.postings[k].transaction
                        }) && (old(self)@.postings[k].transaction.id == id ==> before == old(self)@.postings[k].transaction.photo_path)
                },
                Err(e) => e == EngineError::TransactionNotFound && !has_transaction(
                    old(self)@.postings,
                    id as int,
                ) && final(self)@ == old(self)@,
            },
    {
        let k = match self.find_transaction(id) {
            Some(k) => k,
            None => {
                return Err(EngineError::TransactionNotFound);
            },
        };
        let ghost before = self@;
        let mut posting = self.postings.remove(k);
        let mut held = photo_path;
        proof {
            assert(posting_ok(before.postings[k as int]));
            assert(references_ok(
                before.accounts,
                before.categories,
                before.postings[k as int].transaction,
            ));
        }
        let ghost t0 = posting.transaction;
        std::mem::swap(&mut posting.transaction.photo_path, &mut held);
        proof {
            assert(posting.transaction == (Transaction { photo_path, ..t0 }));
            assert(entries_for(posting.transaction) =~= entries_for(t0));
        }
        let ghost amended = posting;
        self.postings.insert(k, posting);
        proof {
            let after = self@;
            assert(after.postings =~= before.postings.update(k as int, amended));
            assert forall|i: int| 0 <= i < after.postings.len() implies posting_ok(
                #[trigger] after.postings[i],
            ) && after.postings[i].transaction.id < after.next_transaction_id by {
                if i != k {
                    assert(after.postings[i] == before.postings[i]);
                }
            }
            assert forall|i: int, j: int| 0 <= i < j < after.postings.len() implies (
            #[trigger] after.postings[i]).transaction.id != (
            #[trigger] after.postings[j]).transaction.id by {
                assert(after.postings[i].transaction.id == before.postings[i].transaction.id);
                assert(after.postings[j].transaction.id == before.postings[j].transaction.id);
            }
            assert forall|i: int| 0 <= i < after.postings.len() implies references_ok(
                after.accounts,
                after.categories,
                (#[trigger] after.postings[i]).transaction,
            ) by {
                if i != k {
                    assert(after.postings[i] == before.postings[i]);
                }
            }
            assert forall|j: int| 0 <= j < before.postings.len() implies (
            #[trigger] after.postings[j]).entries == before.postings[j].entries
                && after.postings[j].transaction == (if before.postings[j].transaction.id == id {
                Transaction { photo_path, ..before.postings[j].transaction }
            } else {
                before.postings[j].transaction
            }) && (before.postings[j].transaction.id == id ==> held
                == before.postings[j].transaction.photo_path) by {
                if j != k {
                    assert(after.postings[j] == before.postings[j]);
                    assert(before.postings[k as int].transaction.id == id);
                }
            }
        }
        Ok(held)
    }
}

} // verus!
