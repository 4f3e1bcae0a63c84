//! Requests on transactions as they arrive from outside: kinds and dates
//! are still text, and are read before the poster sees them.

use crate::balance::Scope;
use crate::budgets::{category_rolls_into, rolls_into};
use crate::date::{date_le, date_lt, Date};
use crate::export::{plain_amount, plain_amount_text};
use crate::ledger::{
    amend_error, amended_transaction, draft_error, has_transaction, posted_as, transaction_from,
    uses_account, Ledger, LedgerView, TransactionDraft,
};
use crate::model::{
    date_of_text, parse_date, parse_transaction_type, transaction_type_of, CreateTransactionInput,
    EngineError, Transaction, TransactionType, UpdateTransactionInput,
};
use vstd::prelude::*;
use vstd::string::StringSliceAdditionalSpecFns;

verus! {

/// The draft that a request stands for, once its kind and its date are
/// read.
pub open spec fn draft_of(input: CreateTransactionInput) -> TransactionDraft {
    TransactionDraft {
        date: date_of_text(input.date@).unwrap(),
        transaction_type: transaction_type_of(input.transaction_type@).unwrap(),
        amount: input.amount,
        account_id: input.account_id,
        to_account_id: input.to_account_id,
        category_id: input.category_id,
        memo: input.memo,
        photo_path: None,
        auto_settlement: false,
    }
}

/// Why a request to create a transaction is refused; `None` for one that
/// is carried out.
pub open spec fn create_transaction_error(v: LedgerView, input: CreateTransactionInput) -> Option<
    EngineError,
> {
    if transaction_type_of(input.transaction_type@) is None {
        Some(EngineError::InvalidKind)
    } else if input.amount <= 0 {
        Some(EngineError::NonPositiveAmount)
    } else if date_of_text(input.date@) is None {
        Some(EngineError::MalformedDate)
    } else {
        draft_error(v, draft_of(input))
    }
}

/// Creates a transaction and its journal entries: a debit of the account
/// for income, a credit for an expense, a credit of the source and a debit
/// of the destination for a transfer. Gives the new identifier.
pub fn create_transaction(ledger: &mut Ledger, input: CreateTransactionInput) -> (r: Result<
    i64,
    EngineError,
>)
    requires
        old(ledger).wf(),
    ensures
        final(ledger).wf(),
        match r {
            Ok(id) => create_transaction_error(old(ledger)@, input) is None
                && id == old(ledger)@.next_transaction_id
                && posted_as(
                old(ledger)@,
                final(ledger)@,
                transaction_from(id as int, draft_of(input)),
            ),
            Err(e) => create_transaction_error(old(ledger)@, input) == Some(e) && final(ledger)@
                == old(ledger)@,
        },
{
    let kind = match parse_transaction_type(input.transaction_type.as_str()) {
        Some(k) => k,
        None => {
            return Err(EngineError::InvalidKind);
        },
    };
    if input.amount <= 0 {
        return Err(EngineError::NonPositiveAmount);
    }
    let date = match parse_date(input.date.as_str()) {
        Ok(d) => d,
        Err(e) => {
            return Err(e);
        },
    };
    let draft = TransactionDraft {
        date,
        transaction_type: kind,
        amount: input.amount,
        account_id: input.account_id,
        to_account_id: input.to_account_id,
        category_id: input.category_id,
        memo: input.memo,
        photo_path: None,
        auto_settlement: false,
    };
    assert(draft == draft_of(input));
    ledger.post(draft)
}

/// The date that a request to change a transaction carries, if any.
pub open spec fn requested_date(input: UpdateTransactionInput) -> Option<Date> {
    match input.date {
        Some(text) => date_of_text(text@),
        None => None,
    }
}

/// Why a request to change a transaction is refused; `None` for one that
/// is carried out. A new amount is not a change that can be asked for.
pub open spec fn update_transaction_error(v: LedgerView, input: UpdateTransactionInput) -> Option<
    EngineError,
> {
    if !has_transaction(v.postings, input.id as int) {
        Some(EngineError::TransactionNotFound)
    } else if input.date is Some && requested_date(input) is None {
        Some(EngineError::MalformedDate)
    } else {
        amend_error(v, input.id as int, requested_date(input), input.category_id, input.memo)
    }
}

/// Changes the date, the category or the memo of a transaction. Amount
/// and kind cannot be changed, and the journal entries stay as they are.
pub fn update_transaction(ledger: &mut Ledger, input: UpdateTransactionInput) -> (r: Result<
    (),
    EngineError,
>)
    requires
        old(ledger).wf(),
    ensures
        final(ledger).wf(),
        match r {
            Ok(_) => {
                &&& update_transaction_error(old(ledger)@, input) is None
                &&& final(ledger)@.accounts == old(ledger)@.accounts
                &&& final(ledger)@.categories == old(ledger)@.categories
                &&& final(ledger)@.postings.len() == old(ledger)@.postings.len()
                &&& forall|k: int|
                    0 <= k < old(ledger)@.postings.len()
                        ==> (#[trigger] final(ledger)@.postings[k]).entries == old(ledger)@.postings[k].entries
                        && final(ledger)@.postings[k].transaction == (if old(ledger)@.postings[k].transaction.id
                        == input.id {
                        amended_transaction(
                            old(ledger)@.postings[k].transaction,
                            requested_date(input),
                            input.category_id,
                            input.memo,
                        )
                    } else {
                        old(ledger)@.postings[k].transaction
                    })
            },
            Err(e) => update_transaction_error(old(ledger)@, input) == Some(e) && final(ledger)@
                == old(ledger)@,
        },
{
    if ledger.find_transaction(input.id).is_none() {
        return Err(EngineError::TransactionNotFound);
    }
    let date = match &input.date {
        Some(text) => match parse_date(text.as_str()) {
            Ok(d) => Some(d),
            Err(e) => {
                return Err(e);
            },
        },
        None => None,
    };
    ledger.amend_transaction(input.id, date, input.category_id, input.memo)
}

/// What a list of transactions is narrowed down by. Every part that is
/// given must hold of a transaction that is listed.
#[derive(Debug)]
pub struct TransactionFilter {
    pub start_date: Option<Date>,
    pub end_date: Option<Date>,
    pub transaction_type: Option<TransactionType>,
    pub account_id: Option<i64>,
    pub category_id: Option<i64>,
    pub search_query: Option<String>,
    pub include_subcategories: Option<bool>,
}

/// A letter of the alphabet in lower case; every other byte as it is.
pub open spec fn folded(b: u8) -> u8 {
    if 65 <= b <= 90 {
        (b + 32) as u8
    } else {
        b
    }
}

/// `needle` stands in `haystack` at the place `at`, letters compared
/// without regard to case.
pub open spec fn stands_at(haystack: Seq<u8>, needle: Seq<u8>, at: int) -> bool {
    &&& 0 <= at
    &&& at + needle.len() <= haystack.len()
    &&& forall|j: int| 0 <= j < needle.len() ==> folded(#[trigger] haystack[at + j]) == folded(needle[j])
}

/// `needle` stands somewhere in `haystack`.
pub open spec fn holds_text(haystack: Seq<u8>, needle: Seq<u8>) -> bool {
    exists|at: int| stands_at(haystack, needle, at)
}

/// A letter of the alphabet in lower case; every other byte as it is.
pub fn fold_letter(b: u8) -> (r: u8)
    ensures
        r == folded(b),
{
    if b >= 65 && b <= 90 {
        b + 32
    } else {
        b
    }
}

/// Whether one text stands somewhere in another, letters compared without
/// regard to case.
pub fn contains_text(haystack: &str, needle: &str) -> (b: bool)
    ensures
        b == holds_text(haystack.spec_bytes(), needle.spec_bytes()),
{
    contains_bytes(haystack.as_bytes(), needle.as_bytes())
}

/// Whether one run of bytes stands somewhere in another, letters compared
/// without regard to case.
pub fn contains_bytes(h: &[u8], n: &[u8]) -> (b: bool)
    ensures
        b == holds_text(h@, n@),
{
    if n.len() > h.len() {
        assert forall|at: int| !stands_at(h@, n@, at) by {}
        return false;
    }
    let last = h.len() - n.len();
    let mut at: usize = 0;
    while at <= last
        invariant
            at <= last,
            last == h@.len() - n@.len(),
            n@.len() <= h@.len(),
            h@.len() <= usize::MAX,
            forall|k: int| 0 <= k < at ==> !stands_at(h@, n@, k),
        decreases last - at,
    {
        let mut j: usize = 0;
        let mut same = true;
        while j < n.len() && same
            invariant
                j <= n.len(),
                at <= last,
                last == h@.len() - n@.len(),
                n@.len() <= h@.len(),
                h@.len() <= usize::MAX,
                same ==> forall|x: int|
                    0 <= x < j ==> folded(#[trigger] h@[at + x]) == folded(n@[x]),
                !same ==> !stands_at(h@, n@, at as int),
            decreases n.len() - j, (if same { 1int } else { 0int }),
        {
            if fold_letter(h[at + j]) != fold_letter(n[j]) {
                same = false;
                assert(folded(h@[at + j]) != folded(n@[j as int]));
            } else {
                j += 1;
            }
        }
        if same {
            assert(stands_at(h@, n@, at as int));
            return true;
        }
        if at == last {
            assert forall|k: int| !stands_at(h@, n@, k) by {}
            return false;
        }
        at += 1;
    }
    false
}

/// Whether a filter lets a transaction through.
pub open spec fn passes(v: LedgerView, filter: TransactionFilter, t: Transaction) -> bool {
    &&& filter.start_date matches Some(start) ==> date_le(start, t.date)
    &&& filter.end_date matches Some(end) ==> date_le(t.date, end)
    &&& filter.transaction_type matches Some(kind) ==> t.transaction_type == kind
    &&& filter.account_id matches Some(a) ==> uses_account(t, a as int)
    &&& filter.category_id matches Some(c) ==> (if filter.include_subcategories == Some(true) {
        t.category_id is Some && rolls_into(v.categories, t.category_id.unwrap() as int, c as int)
    } else {
        t.category_id == Some(c)
    })
    &&& filter.search_query matches Some(q) ==> text_found(t, vstd::utf8::encode_utf8(q@))
}

/// A search for a text finds the transaction: the text stands in the
/// memo, or in the amount written in full.
pub open spec fn text_found(t: Transaction, query: Seq<u8>) -> bool {
    (t.memo is Some && holds_text(vstd::utf8::encode_utf8(t.memo.unwrap()@), query)) || holds_text(
        plain_amount_text(t.amount as int),
        query,
    )
}

/// Whether a search for a text finds the transaction.
pub fn finds_text(t: &Transaction, query: &str) -> (b: bool)
    ensures
        b == text_found(*t, query.spec_bytes()),
{
    let in_memo = match &t.memo {
        Some(memo) => contains_text(memo.as_str(), query),
        None => false,
    };
    if in_memo {
        return true;
    }
    let amount = plain_amount(t.amount);
    contains_bytes(amount.as_slice(), query.as_bytes())
}

/// Those of the first `n` transactions that a filter lets through.
pub open spec fn filtered(v: LedgerView, filter: TransactionFilter, n: int) -> Seq<Transaction>
    decreases n,
{
    if n <= 0 {
        Seq::empty()
    } else {
        let front = filtered(v, filter, n - 1);
        if passes(v, filter, v.postings[n - 1].transaction) {
            front.push(v.postings[n - 1].transaction)
        } else {
            front
        }
    }
}

/// No transaction is dated later than one that stands before it.
pub open spec fn newest_first(rows: Seq<Transaction>) -> bool {
    forall|i: int, j: int|
        0 <= i < j < rows.len() ==> date_le((#[trigger] rows[j]).date, (#[trigger] rows[i]).date)
}

/// The rows are the wanted transactions, each as often as it is wanted,
/// the newest first.
pub open spec fn listed(rows: Seq<Transaction>, wanted: Seq<Transaction>) -> bool {
    rows.to_multiset() == wanted.to_multiset() && newest_first(rows)
}

/// Puts a transaction into a list that has the newest first, before the
/// transactions that are not dated later.
fn put_newest_first(out: &mut Vec<Transaction>, t: Transaction)
    requires
        newest_first(old(out)@),
    ensures
        newest_first(final(out)@),
        final(out)@.to_multiset() == old(out)@.to_multiset().insert(t),
{
    let mut at: usize = 0;
    while at < out.len() && t.date.is_before(&out[at].date)
        invariant
            at <= out.len(),
            forall|k: int| 0 <= k < at ==> date_lt(t.date, (#[trigger] out@[k]).date),
        decreases out.len() - at,
    {
        at += 1;
    }
    let ghost before = out@;
    let ghost row = t;
    out.insert(at, t);
    proof {
        vstd::seq_lib::to_multiset_insert(before, at as int, row);
        assert forall|a: int, b: int| 0 <= a < b < out@.len() implies date_le(
            (#[trigger] out@[b]).date,
            (#[trigger] out@[a]).date,
        ) by {
            if b < at {
                assert(out@[a] == before[a] && out@[b] == before[b]);
            } else if b == at {
                assert(out@[a] == before[a]);
            } else if a < at {
                assert(out@[a] == before[a] && out@[b] == before[b - 1]);
            } else if a == at {
                assert(out@[b] == before[b - 1]);
                if at < b - 1 {
                    assert(date_le(before[b - 1].date, before[at as int].date));
                }
            } else {
                assert(out@[a] == before[a - 1] && out@[b] == before[b - 1]);
            }
        }
    }
}

/// Whether a filter lets a transaction through.
pub fn passes_filter(ledger: &Ledger, filter: &TransactionFilter, t: &Transaction) -> (b: bool)
    requires
        ledger.wf(),
    ensures
        b == passes(ledger@, *filter, *t),
{
    match filter.start_date {
        Some(start) => {
            if !start.is_on_or_before(&t.date) {
                return false;
            }
        },
        None => {},
    }
    match filter.end_date {
        Some(end) => {
            if !t.date.is_on_or_before(&end) {
                return false;
            }
        },
        None => {},
    }
    match filter.transaction_type {
        Some(kind) => {
            if t.transaction_type != kind {
                return false;
            }
        },
        None => {},
    }
    match filter.account_id {
        Some(a) => {
            let to_matches = match t.to_account_id {
                Some(to) => to == a,
                None => false,
            };
            if !(t.account_id == a || to_matches) {
                return false;
            }
        },
        None => {},
    }
    match filter.category_id {
        Some(c) => {
            let with_children = match filter.include_subcategories {
                Some(flag) => flag,
                None => false,
            };
            let fits = match t.category_id {
                Some(own) => if with_children {
                    category_rolls_into(ledger, own, c)
                } else {
                    own == c
                },
                None => false,
            };
            if !fits {
                return false;
            }
        },
        None => {},
    }
    match &filter.search_query {
        Some(q) => {
            if !finds_text(t, q.as_str()) {
                return false;
            }
        },
        None => {},
    }
    true
}

/// The transactions that a filter lets through, the newest first.
pub fn get_transactions_filtered(ledger: &Ledger, filter: &TransactionFilter) -> (r: Vec<
    Transaction,
>)
    requires
        ledger.wf(),
    ensures
        listed(r@, filtered(ledger@, *filter, ledger@.postings.len() as int)),
{
    let postings = ledger.postings();
    let mut out: Vec<Transaction> = Vec::new();
    let mut i: usize = 0;
    proof {
        assert(filtered(ledger@, *filter, 0) =~= out@);
    }
    while i < postings.len()
        invariant
            i <= postings.len(),
            postings@ == ledger@.postings,
            ledger.wf(),
            listed(out@, filtered(ledger@, *filter, i as int)),
        decreases postings.len() - i,
    {
        if passes_filter(ledger, filter, &postings[i].transaction) {
            proof {
                vstd::seq_lib::to_multiset_build(
                    filtered(ledger@, *filter, i as int),
                    postings@[i as int].transaction,
                );
            }
            put_newest_first(&mut out, postings[i].transaction.copy());
        }
        i += 1;
    }
    out
}

/// The first `n` transactions of the journal.
pub open spec fn transactions_of(v: LedgerView, n: int) -> Seq<Transaction>
    decreases n,
{
    if n <= 0 {
        Seq::empty()
    } else {
        transactions_of(v, n - 1).push(v.postings[n - 1].transaction)
    }
}

/// All transactions, the newest first.
pub fn get_transactions(ledger: &Ledger) -> (r: Vec<Transaction>)
    ensures
        listed(r@, transactions_of(ledger@, ledger@.postings.len() as int)),
{
    let postings = ledger.postings();
    let mut out: Vec<Transaction> = Vec::new();
    let mut i: usize = 0;
    proof {
        assert(transactions_of(ledger@, 0) =~= out@);
    }
    while i < postings.len()
        invariant
            i <= postings.len(),
            postings@ == ledger@.postings,
            listed(out@, transactions_of(ledger@, i as int)),
        decreases postings.len() - i,
    {
        proof {
            vstd::seq_lib::to_multiset_build(
                transactions_of(ledger@, i as int),
                postings@[i as int].transaction,
            );
        }
        put_newest_first(&mut out, postings[i].transaction.copy());
        i += 1;
    }
    out
}

/// The most transactions that a search shows.
pub const SEARCH_LIMIT: usize = 100;

/// Those of the first `n` transactions that a search for a text finds.
pub open spec fn found(v: LedgerView, query: Seq<u8>, n: int) -> Seq<Transaction>
    decreases n,
{
    if n <= 0 {
        Seq::empty()
    } else {
        let front = found(v, query, n - 1);
        if text_found(v.postings[n - 1].transaction, query) {
            front.push(v.postings[n - 1].transaction)
        } else {
            front
        }
    }
}

/// The rows are the head of a list of all transactions that a search
/// finds, the newest first: the whole list, or as many as a search
/// shows.
pub open spec fn search_listed(v: LedgerView, query: Seq<u8>, rows: Seq<Transaction>) -> bool {
    exists|all: Seq<Transaction>| #[trigger]
        listed(all, found(v, query, v.postings.len() as int)) && rows == (if all.len()
            <= SEARCH_LIMIT {
            all
        } else {
            all.take(SEARCH_LIMIT as int)
        })
}

/// The transactions that hold a text in their memo or in their amount,
/// the newest first, a hundred at most.
pub fn search_transactions(ledger: &Ledger, query: &str) -> (r: Vec<Transaction>)
    ensures
        search_listed(ledger@, query.spec_bytes(), r@),
{
    let postings = ledger.postings();
    let mut out: Vec<Transaction> = Vec::new();
    let mut i: usize = 0;
    proof {
        assert(found(ledger@, query.spec_bytes(), 0) =~= out@);
    }
    while i < postings.len()
        invariant
            i <= postings.len(),
            postings@ == ledger@.postings,
            listed(out@, found(ledger@, query.spec_bytes(), i as int)),
        decreases postings.len() - i,
    {
        if finds_text(&postings[i].transaction, query) {
            proof {
                vstd::seq_lib::to_multiset_build(
                    found(ledger@, query.spec_bytes(), i as int),
                    postings@[i as int].transaction,
                );
            }
            put_newest_first(&mut out, postings[i].transaction.copy());
        }
        i += 1;
    }
    let ghost all = out@;
    out.truncate(SEARCH_LIMIT);
    proof {
        assert(listed(all, found(ledger@, query.spec_bytes(), ledger@.postings.len() as int)));
        if all.len() > SEARCH_LIMIT {
            assert(out@ =~= all.take(SEARCH_LIMIT as int));
        } else {
            assert(out@ =~= all);
        }
        assert(search_listed(ledger@, query.spec_bytes(), out@));
    }
    out
}

/// Those of the first `n` transactions that name the account and are
/// dated in the scope.
pub open spec fn account_transactions(v: LedgerView, account_id: int, scope: Scope, n: int) -> Seq<
    Transaction,
>
    decreases n,
{
    if n <= 0 {
        Seq::empty()
    } else {
        let front = account_transactions(v, account_id, scope, n - 1);
        let t = v.postings[n - 1].transaction;
        if uses_account(t, account_id) && scope.holds(t.date) {
            front.push(t)
        } else {
            front
        }
    }
}

/// No transaction is dated earlier than one that stands before it.
pub open spec fn oldest_first(rows: Seq<Transaction>) -> bool {
    forall|i: int, j: int|
        0 <= i < j < rows.len() ==> date_le((#[trigger] rows[i]).date, (#[trigger] rows[j]).date)
}

/// Puts a transaction into a list that has the oldest first, behind the
/// transactions that are not dated later.
fn put_oldest_first(out: &mut Vec<Transaction>, t: Transaction)
    requires
        oldest_first(old(out)@),
    ensures
        oldest_first(final(out)@),
        final(out)@.to_multiset() == old(out)@.to_multiset().insert(t),
{
    let mut at: usize = 0;
    while at < out.len() && out[at].date.is_on_or_before(&t.date)
        invariant
            at <= out.len(),
            forall|k: int| 0 <= k < at ==> date_le((#[trigger] out@[k]).date, t.date),
        decreases out.len() - at,
    {
        at += 1;
    }
    let ghost before = out@;
    let ghost row = t;
    out.insert(at, t);
    proof {
        vstd::seq_lib::to_multiset_insert(before, at as int, row);
        assert forall|a: int, b: int| 0 <= a < b < out@.len() implies date_le(
            (#[trigger] out@[a]).date,
            (#[trigger] out@[b]).date,
        ) by {
            if b < at {
                assert(out@[a] == before[a] && out@[b] == before[b]);
            } else if b == at {
                assert(out@[a] == before[a]);
            } else if a < at {
                assert(out@[a] == before[a] && out@[b] == before[b - 1]);
                if at < b - 1 {
                    assert(date_le(before[at as int].date, before[b - 1].date));
                }
            } else if a == at {
                assert(out@[b] == before[b - 1]);
                if at < b - 1 {
                    assert(date_le(before[at as int].date, before[b - 1].date));
                }
            } else {
                assert(out@[a] == before[a - 1] && out@[b] == before[b - 1]);
            }
        }
    }
}

/// The transactions in a scope that name an account, as their own or as
/// their destination, the newest first.
pub fn get_account_transactions(ledger: &Ledger, account_id: i64, scope: Scope) -> (r: Vec<
    Transaction,
>)
    ensures
        listed(
            r@,
            account_transactions(ledger@, account_id as int, scope, ledger@.postings.len() as int),
        ),
{
    let postings = ledger.postings();
    let mut out: Vec<Transaction> = Vec::new();
    let mut i: usize = 0;
    proof {
        assert(account_transactions(ledger@, account_id as int, scope, 0) =~= out@);
    }
    while i < postings.len()
        invariant
            i <= postings.len(),
            postings@ == ledger@.postings,
            listed(out@, account_transactions(ledger@, account_id as int, scope, i as int)),
        decreases postings.len() - i,
    {
        let t = &postings[i].transaction;
        let to_matches = match t.to_account_id {
            Some(to) => to == account_id,
            None => false,
        };
        if (t.account_id == account_id || to_matches) && scope.contains(&t.date) {
            proof {
                vstd::seq_lib::to_multiset_build(
                    account_transactions(ledger@, account_id as int, scope, i as int),
                    postings@[i as int].transaction,
                );
            }
            put_newest_first(&mut out, t.copy());
        }
        i += 1;
    }
    out
}

/// The rows are the wanted transactions, each as often as it is wanted,
/// the oldest first.
pub open spec fn listed_by_date(rows: Seq<Transaction>, wanted: Seq<Transaction>) -> bool {
    rows.to_multiset() == wanted.to_multiset() && oldest_first(rows)
}

/// The transactions in a scope that name an account, as their own or as
/// their destination, the oldest first.
pub fn get_account_transactions_by_date(ledger: &Ledger, account_id: i64, scope: Scope) -> (r: Vec<
    Transaction,
>)
    ensures
        listed_by_date(
            r@,
            account_transactions(ledger@, account_id as int, scope, ledger@.postings.len() as int),
        ),
{
    let postings = ledger.postings();
    let mut out: Vec<Transaction> = Vec::new();
    let mut i: usize = 0;
    proof {
        assert(account_transactions(ledger@, account_id as int, scope, 0) =~= out@);
    }
    while i < postings.len()
        invariant
            i <= postings.len(),
            postings@ == ledger@.postings,
            listed_by_date(out@, account_transactions(ledger@, account_id as int, scope, i as int)),
        decreases postings.len() - i,
    {
        let t = &postings[i].transaction;
        let to_matches = match t.to_account_id {
            Some(to) => to == account_id,
            None => false,
        };
        if (t.account_id == account_id || to_matches) && scope.contains(&t.date) {
            proof {
                vstd::seq_lib::to_multiset_build(
                    account_transactions(ledger@, account_id as int, scope, i as int),
                    postings@[i as int].transaction,
                );
            }
            put_oldest_first(&mut out, t.copy());
        }
        i += 1;
    }
    out
}

/// What an export of transactions is narrowed down by.
#[derive(Clone, Copy, Debug, PartialEq, Eq, Structural)]
pub struct ExportFilter {
    pub start_date: Option<Date>,
    pub end_date: Option<Date>,
    pub transaction_type: Option<TransactionType>,
    pub account_id: Option<i64>,
    pub category_id: Option<i64>,
}

/// Whether an export holds a transaction; every transaction where no
/// filter is given.
pub open spec fn export_passes(filter: Option<ExportFilter>, t: Transaction) -> bool {
    match filter {
        None => true,
        Some(f) => {
            &&& f.start_date matches Some(start) ==> date_le(start, t.date)
            &&& f.end_date matches Some(end) ==> date_le(t.date, end)
            &&& f.transaction_type matches Some(kind) ==> t.transaction_type == kind
            &&& f.account_id matches Some(a) ==> uses_account(t, a as int)
            &&& f.category_id matches Some(c) ==> t.category_id == Some(c)
        },
    }
}

/// Those of the first `n` transactions that are exported.
pub open spec fn exported(v: LedgerView, filter: Option<ExportFilter>, n: int) -> Seq<Transaction>
    decreases n,
{
    if n <= 0 {
        Seq::empty()
    } else {
        let front = exported(v, filter, n - 1);
        if export_passes(filter, v.postings[n - 1].transaction) {
            front.push(v.postings[n - 1].transaction)
        } else {
            front
        }
    }
}

/// The transactions that an export holds, the newest first.
pub fn get_export_transactions(ledger: &Ledger, filter: Option<ExportFilter>) -> (r: Vec<
    Transaction,
>)
    ensures
        listed(r@, exported(ledger@, filter, ledger@.postings.len() as int)),
{
    let postings = ledger.postings();
    let mut out: Vec<Transaction> = Vec::new();
    let mut i: usize = 0;
    proof {
        assert(exported(ledger@, filter, 0) =~= out@);
    }
    while i < postings.len()
        invariant
            i <= postings.len(),
            postings@ == ledger@.postings,
            listed(out@, exported(ledger@, filter, i as int)),
        decreases postings.len() - i,
    {
        let t = &postings[i].transaction;
        let passes = match filter {
            None => true,
            Some(f) => {
                let after_start = match f.start_date {
                    Some(start) => start.is_on_or_before(&t.date),
                    None => true,
                };
                let before_end = match f.end_date {
                    Some(end) => t.date.is_on_or_before(&end),
                    None => true,
                };
                let of_kind = match f.transaction_type {
                    Some(kind) => t.transaction_type == kind,
                    None => true,
                };
                let of_account = match f.account_id {
                    Some(a) => t.account_id == a || (match t.to_account_id {
                        Some(to) => to == a,
                        None => false,
                    }),
                    None => true,
                };
                let of_category = match f.category_id {
                    Some(c) => match t.category_id {
                        Some(own) => own == c,
                        None => false,
                    },
                    None => true,
                };
                after_start && before_end && of_kind && of_account && of_category
            },
        };
        if passes {
            proof {
                vstd::seq_lib::to_multiset_build(
                    exported(ledger@, filter, i as int),
                    postings@[i as int].transaction,
                );
            }
            put_newest_first(&mut out, t.copy());
        }
        i += 1;
    }
    out
}

} // verus!
