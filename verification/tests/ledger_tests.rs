use money_manager::balance::{balance_as_of, calc_net_worth_at};
use money_manager::date::Date;
use money_manager::ledger::{Ledger, NewAccount, TransactionDraft};
use money_manager::model::{
    AccountType, CreateTransactionInput, CurrencyCode, EngineError, TransactionType,
};
use money_manager::transactions::create_transaction;

fn lkr() -> CurrencyCode {
    CurrencyCode { a: b'L', b: b'K', c: b'R' }
}

fn ledger_with_accounts() -> Ledger {
    let mut ledger = Ledger::new();
    ledger
        .restore_account(
            1,
            NewAccount {
                group_id: 1,
                account_type: AccountType::Asset,
                name: "Cash".to_string(),
                initial_balance: 100_000,
                currency: lkr(),
            },
        )
        .unwrap();
    ledger
        .restore_account(
            2,
            NewAccount {
                group_id: 2,
                account_type: AccountType::Liability,
                name: "Card".to_string(),
                initial_balance: 0,
                currency: lkr(),
            },
        )
        .unwrap();
    ledger
}

fn input(kind: &str, date: &str, amount: i64, from: i64, to: Option<i64>) -> CreateTransactionInput {
    CreateTransactionInput {
        date: date.to_string(),
        transaction_type: kind.to_string(),
        amount,
        account_id: from,
        to_account_id: to,
        category_id: None,
        memo: None,
    }
}

#[test]
fn income_debits_the_account() {
    let mut ledger = ledger_with_accounts();
    let id = create_transaction(&mut ledger, input("INCOME", "2025-01-10", 2_500, 1, None)).unwrap();
    assert_eq!(id, 1);
    let posted = &ledger.postings()[0];
    assert_eq!(posted.entries.len(), 1);
    assert_eq!(posted.entries[0].debit, 2_500);
    assert_eq!(posted.entries[0].credit, 0);
    assert_eq!(posted.entries[0].account_id, 1);
    assert_eq!(balance_as_of(&ledger, 1, None), Ok(102_500));
}

#[test]
fn expense_credits_the_account() {
    let mut ledger = ledger_with_accounts();
    create_transaction(&mut ledger, input("EXPENSE", "2025-01-10", 700, 1, None)).unwrap();
    let posted = &ledger.postings()[0];
    assert_eq!(posted.entries.len(), 1);
    assert_eq!(posted.entries[0].debit, 0);
    assert_eq!(posted.entries[0].credit, 700);
    assert_eq!(balance_as_of(&ledger, 1, None), Ok(99_300));
}

#[test]
fn transfer_credits_source_and_debits_destination() {
    let mut ledger = ledger_with_accounts();
    create_transaction(&mut ledger, input("TRANSFER", "2025-01-10", 4_000, 1, Some(2))).unwrap();
    let posted = &ledger.postings()[0];
    assert_eq!(posted.entries.len(), 2);
    let debit: i64 = posted.entries.iter().map(|e| e.debit).sum();
    let credit: i64 = posted.entries.iter().map(|e| e.credit).sum();
    assert_eq!(debit, credit);
    assert_eq!(posted.entries[0].account_id, 1);
    assert_eq!(posted.entries[0].credit, 4_000);
    assert_eq!(posted.entries[1].account_id, 2);
    assert_eq!(posted.entries[1].debit, 4_000);
    assert_eq!(balance_as_of(&ledger, 1, None), Ok(96_000));
    assert_eq!(balance_as_of(&ledger, 2, None), Ok(4_000));
}

#[test]
fn income_then_expense_returns_to_the_initial_balance() {
    let mut ledger = ledger_with_accounts();
    create_transaction(&mut ledger, input("INCOME", "2025-02-01", 12_345, 1, None)).unwrap();
    create_transaction(&mut ledger, input("EXPENSE", "2025-02-02", 12_345, 1, None)).unwrap();
    assert_eq!(balance_as_of(&ledger, 1, None), Ok(100_000));
}

#[test]
fn balance_as_of_counts_only_earlier_postings() {
    let mut ledger = ledger_with_accounts();
    create_transaction(&mut ledger, input("INCOME", "2025-01-10", 1_000, 1, None)).unwrap();
    create_transaction(&mut ledger, input("EXPENSE", "2025-01-20", 300, 1, None)).unwrap();
    let day = |d| Some(Date { year: 2025, month: 1, day: d });
    assert_eq!(balance_as_of(&ledger, 1, day(9)), Ok(100_000));
    assert_eq!(balance_as_of(&ledger, 1, day(10)), Ok(101_000));
    assert_eq!(balance_as_of(&ledger, 1, day(19)), Ok(101_000));
    assert_eq!(balance_as_of(&ledger, 1, day(20)), Ok(100_700));
    assert_eq!(balance_as_of(&ledger, 7, None), Err(EngineError::AccountNotFound));
}

#[test]
fn balance_does_not_depend_on_insertion_order() {
    let mut first = ledger_with_accounts();
    create_transaction(&mut first, input("INCOME", "2025-01-10", 1_000, 1, None)).unwrap();
    create_transaction(&mut first, input("EXPENSE", "2025-01-20", 300, 1, None)).unwrap();
    create_transaction(&mut first, input("TRANSFER", "2025-01-25", 50, 1, Some(2))).unwrap();
    let mut second = ledger_with_accounts();
    create_transaction(&mut second, input("TRANSFER", "2025-01-25", 50, 1, Some(2))).unwrap();
    create_transaction(&mut second, input("EXPENSE", "2025-01-20", 300, 1, None)).unwrap();
    create_transaction(&mut second, input("INCOME", "2025-01-10", 1_000, 1, None)).unwrap();
    assert_eq!(balance_as_of(&first, 1, None), balance_as_of(&second, 1, None));
    assert_eq!(balance_as_of(&first, 1, None), Ok(100_650));
}

#[test]
fn poster_refuses_bad_requests_and_writes_nothing() {
    let mut ledger = ledger_with_accounts();
    assert_eq!(
        create_transaction(&mut ledger, input("GIFT", "2025-01-10", 1, 1, None)),
        Err(EngineError::InvalidKind)
    );
    assert_eq!(
        create_transaction(&mut ledger, input("INCOME", "2025-01-10", 0, 1, None)),
        Err(EngineError::NonPositiveAmount)
    );
    assert_eq!(
        create_transaction(&mut ledger, input("INCOME", "10/01/2025", 5, 1, None)),
        Err(EngineError::MalformedDate)
    );
    assert_eq!(
        create_transaction(&mut ledger, input("INCOME", "2025-01-10", 5, 9, None)),
        Err(EngineError::AccountNotFound)
    );
    assert_eq!(
        create_transaction(&mut ledger, input("TRANSFER", "2025-01-10", 5, 1, None)),
        Err(EngineError::DestinationRequired)
    );
    assert_eq!(
        create_transaction(&mut ledger, input("TRANSFER", "2025-01-10", 5, 1, Some(1))),
        Err(EngineError::SelfTransfer)
    );
    assert_eq!(
        create_transaction(&mut ledger, input("TRANSFER", "2025-01-10", 5, 1, Some(9))),
        Err(EngineError::DestinationNotFound)
    );
    let mut with_category = input("EXPENSE", "2025-01-10", 5, 1, None);
    with_category.category_id = Some(3);
    assert_eq!(create_transaction(&mut ledger, with_category), Err(EngineError::CategoryNotFound));
    assert_eq!(ledger.postings().len(), 0);
}

#[test]
fn deleting_an_account_with_transactions_fails() {
    let mut ledger = ledger_with_accounts();
    create_transaction(&mut ledger, input("TRANSFER", "2025-01-25", 50, 1, Some(2))).unwrap();
    assert_eq!(ledger.delete_account(1), Err(EngineError::AccountInUse));
    assert_eq!(ledger.delete_account(2), Err(EngineError::AccountInUse));
    assert_eq!(ledger.accounts().len(), 2);
    ledger.delete_transaction(1).unwrap();
    assert_eq!(ledger.delete_account(2), Ok(()));
    assert_eq!(ledger.accounts().len(), 1);
    assert_eq!(ledger.accounts()[0].id, 1);
}

#[test]
fn net_worth_counts_liabilities_by_magnitude() {
    let mut ledger = ledger_with_accounts();
    let spend = TransactionDraft {
        date: Date { year: 2025, month: 3, day: 1 },
        transaction_type: TransactionType::Expense,
        amount: 30_000,
        account_id: 2,
        to_account_id: None,
        category_id: None,
        memo: None,
        photo_path: None,
        auto_settlement: false,
    };
    ledger.post(spend).unwrap();
    assert_eq!(calc_net_worth_at(&ledger, None), (100_000, 30_000));
    assert_eq!(
        calc_net_worth_at(&ledger, Some(Date { year: 2025, month: 2, day: 28 })),
        (100_000, 0)
    );
    let overpay = TransactionDraft {
        date: Date { year: 2025, month: 3, day: 2 },
        transaction_type: TransactionType::Transfer,
        amount: 40_000,
        account_id: 1,
        to_account_id: Some(2),
        category_id: None,
        memo: None,
        photo_path: None,
        auto_settlement: false,
    };
    ledger.post(overpay).unwrap();
    assert_eq!(calc_net_worth_at(&ledger, None), (60_000, 0));
}

#[test]
fn poster_refuses_a_date_that_is_no_day() {
    let mut ledger = ledger_with_accounts();
    let draft = |date: Date, amount: i64| TransactionDraft {
        date,
        transaction_type: TransactionType::Income,
        amount,
        account_id: 1,
        to_account_id: None,
        category_id: None,
        memo: None,
        photo_path: None,
        auto_settlement: false,
    };
    let no_day = Date { year: 2025, month: 2, day: 30 };
    assert_eq!(ledger.post(draft(no_day, 5)), Err(EngineError::MalformedDate));
    assert_eq!(ledger.post(draft(no_day, 0)), Err(EngineError::NonPositiveAmount));
    assert_eq!(ledger.check(&draft(no_day, 5)), Err(EngineError::MalformedDate));
    assert_eq!(
        ledger.restore_transaction(4, draft(Date { year: 2025, month: 13, day: 1 }, 5)),
        Err(EngineError::MalformedDate)
    );
    assert_eq!(ledger.postings().len(), 0);
    assert_eq!(ledger.post(draft(Date { year: 2024, month: 2, day: 29 }, 5)), Ok(1));
    assert_eq!(ledger.amend_transaction(1, Some(no_day), None, None), Err(EngineError::MalformedDate));
    assert_eq!(ledger.postings()[0].transaction.date, Date { year: 2024, month: 2, day: 29 });
    assert_eq!(ledger.amend_transaction(1, Some(Date { year: 2024, month: 3, day: 1 }), None, None), Ok(()));
    assert_eq!(ledger.postings()[0].transaction.date, Date { year: 2024, month: 3, day: 1 });
}

#[test]
fn a_destination_is_stored_as_it_is_given() {
    let mut ledger = ledger_with_accounts();
    let id = create_transaction(&mut ledger, input("INCOME", "2025-01-10", 100, 1, Some(2))).unwrap();
    let posted = &ledger.postings()[0];
    assert_eq!(posted.transaction.id, id);
    assert_eq!(posted.transaction.to_account_id, Some(2));
    assert_eq!(posted.entries.len(), 1);
    assert_eq!(
        (posted.entries[0].account_id, posted.entries[0].debit, posted.entries[0].credit),
        (1, 100, 0)
    );
    assert_eq!(balance_as_of(&ledger, 1, None), Ok(100_100));
    assert_eq!(balance_as_of(&ledger, 2, None), Ok(0));
    assert_eq!(ledger.delete_account(2), Err(EngineError::AccountInUse));
    assert_eq!(ledger.accounts().len(), 2);
    create_transaction(&mut ledger, input("EXPENSE", "2025-01-11", 30, 1, Some(9))).unwrap();
    assert_eq!(ledger.postings()[1].transaction.to_account_id, Some(9));
    assert_eq!(ledger.postings()[1].entries.len(), 1);
    create_transaction(&mut ledger, input("EXPENSE", "2025-01-12", 20, 1, Some(1))).unwrap();
    assert_eq!(ledger.postings()[2].transaction.to_account_id, Some(1));
    assert_eq!(balance_as_of(&ledger, 1, None), Ok(100_050));
    ledger.delete_transaction(id).unwrap();
    assert_eq!(ledger.delete_account(2), Ok(()));
}
