use money_manager::credit_cards::{
    get_current_cycle_transactions, get_credit_card_settings_by_account, get_statement_with_transactions,
    get_statements, calculate_balance_before_date, calculate_card_balances, compute_current_cycle_dates,
    compute_due_date, get_all_credit_cards, get_credit_card_details, get_credit_card_summaries,
    process_auto_settlements, settle_credit_card, CardBook, CreateCreditCardSettingsInput,
    CreditCardSettings, CreditCardStatement, SettlementInput, StatementStatus,
    UpdateCreditCardSettingsInput,
};
use money_manager::date::Date;
use money_manager::ledger::{Ledger, NewAccount, TransactionDraft};
use money_manager::model::{AccountType, CurrencyCode, EngineError, TransactionType};

fn d(year: i32, month: u32, day: u32) -> Date {
    Date { year, month, day }
}

fn account(kind: AccountType, initial: i64) -> NewAccount {
    NewAccount {
        group_id: 1,
        account_type: kind,
        name: "account".to_string(),
        initial_balance: initial,
        currency: CurrencyCode { a: b'L', b: b'K', c: b'R' },
    }
}

/// Account 1 is a bank account, account 2 a credit card, account 3 a
/// second card.
fn ledger() -> Ledger {
    let mut ledger = Ledger::new();
    ledger.restore_account(1, account(AccountType::Asset, 1_000_000)).unwrap();
    ledger.restore_account(2, account(AccountType::Liability, 0)).unwrap();
    ledger.restore_account(3, account(AccountType::Liability, 0)).unwrap();
    ledger
}

fn spend(ledger: &mut Ledger, date: Date, amount: i64) -> i64 {
    ledger
        .post(TransactionDraft {
            date,
            transaction_type: TransactionType::Expense,
            amount,
            account_id: 2,
            to_account_id: None,
            category_id: None,
            memo: None,
            photo_path: None,
            auto_settlement: false,
        })
        .unwrap()
}

fn pay(ledger: &mut Ledger, date: Date, amount: i64) -> i64 {
    ledger
        .post(TransactionDraft {
            date,
            transaction_type: TransactionType::Transfer,
            amount,
            account_id: 1,
            to_account_id: Some(2),
            category_id: None,
            memo: None,
            photo_path: None,
            auto_settlement: false,
        })
        .unwrap()
}

fn card_input() -> CreateCreditCardSettingsInput {
    CreateCreditCardSettingsInput {
        account_id: 2,
        credit_limit: 500_000,
        statement_day: 25,
        payment_due_day: 15,
        minimum_payment_percentage: None,
        auto_settlement_enabled: None,
        settlement_account_id: None,
    }
}

fn statement(id: i64, due: Date, closing: i128, paid: i128, status: StatementStatus) -> CreditCardStatement {
    CreditCardStatement {
        id,
        credit_card_id: 1,
        statement_date: d(2025, 1, id as u32),
        due_date: due,
        cycle_start_date: d(2024, 1, id as u32),
        cycle_end_date: d(2025, 1, id as u32),
        opening_balance: 0,
        total_charges: closing,
        total_payments: 0,
        closing_balance: closing,
        minimum_payment: 0,
        status,
        paid_amount: paid,
        paid_date: None,
    }
}

#[test]
fn cycle_before_the_statement_day_ends_this_month() {
    assert_eq!(
        compute_current_cycle_dates(d(2025, 3, 10), 25),
        (d(2025, 2, 26), d(2025, 3, 25))
    );
    assert_eq!(
        compute_current_cycle_dates(d(2025, 3, 25), 25),
        (d(2025, 2, 26), d(2025, 3, 25))
    );
}

#[test]
fn cycle_after_the_statement_day_ends_next_month() {
    assert_eq!(
        compute_current_cycle_dates(d(2025, 3, 26), 25),
        (d(2025, 3, 26), d(2025, 4, 25))
    );
}

#[test]
fn cycle_crosses_the_turn_of_the_year() {
    assert_eq!(
        compute_current_cycle_dates(d(2025, 1, 5), 10),
        (d(2024, 12, 11), d(2025, 1, 10))
    );
    assert_eq!(
        compute_current_cycle_dates(d(2024, 12, 20), 10),
        (d(2024, 12, 11), d(2025, 1, 10))
    );
}

#[test]
fn cycle_on_the_28th_starts_on_the_first_of_march() {
    assert_eq!(
        compute_current_cycle_dates(d(2025, 3, 5), 28),
        (d(2025, 3, 1), d(2025, 3, 28))
    );
    assert_eq!(
        compute_current_cycle_dates(d(2024, 3, 5), 28),
        (d(2024, 2, 29), d(2024, 3, 28))
    );
}

#[test]
fn cycle_clamps_a_day_that_the_month_lacks() {
    assert_eq!(
        compute_current_cycle_dates(d(2025, 2, 10), 31),
        (d(2025, 2, 1), d(2025, 2, 28))
    );
    assert_eq!(
        compute_current_cycle_dates(d(2025, 3, 10), 31),
        (d(2025, 3, 1), d(2025, 3, 31))
    );
}

#[test]
fn due_date_lies_in_the_month_after_the_statement() {
    assert_eq!(compute_due_date(d(2025, 3, 25), 15), d(2025, 4, 15));
    assert_eq!(compute_due_date(d(2025, 12, 25), 15), d(2026, 1, 15));
    assert_eq!(compute_due_date(d(2025, 1, 25), 30), d(2025, 2, 28));
}

#[test]
fn card_settings_are_validated() {
    let ledger = ledger();
    let mut book = CardBook::new();
    let mut input = card_input();
    input.account_id = 9;
    assert_eq!(book.create_credit_card_settings(&ledger, input), Err(EngineError::AccountNotFound));
    input = card_input();
    input.account_id = 1;
    assert_eq!(
        book.create_credit_card_settings(&ledger, input),
        Err(EngineError::NotLiabilityAccount)
    );
    input = card_input();
    input.statement_day = 29;
    assert_eq!(
        book.create_credit_card_settings(&ledger, input),
        Err(EngineError::InvalidStatementDay)
    );
    input = card_input();
    input.payment_due_day = 0;
    assert_eq!(book.create_credit_card_settings(&ledger, input), Err(EngineError::InvalidDueDay));
    input = card_input();
    input.credit_limit = -1;
    assert_eq!(
        book.create_credit_card_settings(&ledger, input),
        Err(EngineError::NegativeCreditLimit)
    );
    input = card_input();
    input.settlement_account_id = Some(8);
    assert_eq!(
        book.create_credit_card_settings(&ledger, input),
        Err(EngineError::SettlementAccountNotFound)
    );
    input = card_input();
    input.settlement_account_id = Some(3);
    assert_eq!(
        book.create_credit_card_settings(&ledger, input),
        Err(EngineError::SettlementNotAsset)
    );
    input = card_input();
    input.minimum_payment_percentage = Some(10_001);
    assert_eq!(
        book.create_credit_card_settings(&ledger, input),
        Err(EngineError::InvalidPercentage)
    );
    assert_eq!(book.cards().len(), 0);

    let created = book.create_credit_card_settings(&ledger, card_input()).unwrap();
    assert_eq!(created.id, 1);
    assert_eq!(created.minimum_payment_percentage, 500);
    assert!(!created.auto_settlement_enabled);
    assert_eq!(
        book.create_credit_card_settings(&ledger, card_input()),
        Err(EngineError::DuplicateCard)
    );
}

#[test]
fn card_settings_can_be_changed_and_deleted() {
    let ledger = ledger();
    let mut book = CardBook::new();
    book.create_credit_card_settings(&ledger, card_input()).unwrap();
    let nothing = UpdateCreditCardSettingsInput {
        id: 1,
        credit_limit: None,
        statement_day: None,
        payment_due_day: None,
        minimum_payment_percentage: None,
        auto_settlement_enabled: None,
        settlement_account_id: None,
    };
    assert_eq!(
        book.update_credit_card_settings(&ledger, nothing),
        Err(EngineError::NothingToUpdate)
    );
    let mut missing = nothing;
    missing.id = 5;
    assert_eq!(book.update_credit_card_settings(&ledger, missing), Err(EngineError::CardNotFound));
    let mut change = nothing;
    change.statement_day = Some(10);
    change.auto_settlement_enabled = Some(true);
    change.settlement_account_id = Some(1);
    let updated = book.update_credit_card_settings(&ledger, change).unwrap();
    assert_eq!(updated.statement_day, 10);
    assert_eq!(updated.payment_due_day, 15);
    assert!(updated.auto_settlement_enabled);
    assert_eq!(updated.settlement_account_id, Some(1));
    assert_eq!(book.cards()[0], updated);

    book.generate_statement(&ledger, 1, d(2025, 3, 5)).unwrap();
    assert_eq!(book.delete_credit_card_settings(1), Err(EngineError::CardHasStatements));
    assert_eq!(book.delete_credit_card_settings(4), Err(EngineError::CardNotFound));

    let mut other = CardBook::new();
    other.create_credit_card_settings(&ledger, card_input()).unwrap();
    assert_eq!(other.delete_credit_card_settings(1), Ok(()));
    assert_eq!(other.cards().len(), 0);
}

#[test]
fn first_statement_opens_with_what_was_owed_before_the_cycle() {
    let mut ledger = ledger();
    let mut book = CardBook::new();
    book.create_credit_card_settings(&ledger, card_input()).unwrap();
    spend(&mut ledger, d(2025, 1, 10), 30_000);
    pay(&mut ledger, d(2025, 2, 1), 10_000);
    spend(&mut ledger, d(2025, 3, 1), 12_345);
    spend(&mut ledger, d(2025, 3, 25), 55);
    pay(&mut ledger, d(2025, 3, 20), 2_000);
    spend(&mut ledger, d(2025, 3, 26), 999_999);

    assert_eq!(calculate_balance_before_date(&ledger, 2, &d(2025, 2, 26)), 20_000);

    let s = book.generate_statement(&ledger, 1, d(2025, 3, 10)).unwrap();
    assert_eq!(s.id, 1);
    assert_eq!(s.credit_card_id, 1);
    assert_eq!(s.cycle_start_date, d(2025, 2, 26));
    assert_eq!(s.cycle_end_date, d(2025, 3, 25));
    assert_eq!(s.statement_date, d(2025, 3, 25));
    assert_eq!(s.due_date, d(2025, 4, 15));
    assert_eq!(s.opening_balance, 20_000);
    assert_eq!(s.total_charges, 12_400);
    assert_eq!(s.total_payments, 2_000);
    assert_eq!(s.closing_balance, 30_400);
    assert_eq!(s.minimum_payment, 1_520);
    assert_eq!(s.status, StatementStatus::Closed);
    assert_eq!(s.paid_amount, 0);
    assert_eq!(s.paid_date, None);

    assert_eq!(
        book.generate_statement(&ledger, 1, d(2025, 3, 20)),
        Err(EngineError::DuplicateStatement)
    );
    assert_eq!(book.generate_statement(&ledger, 7, d(2025, 3, 20)), Err(EngineError::CardNotFound));
    assert_eq!(book.statements().len(), 1);
}

#[test]
fn later_statement_opens_with_the_closing_balance_of_the_one_before() {
    let mut ledger = ledger();
    let mut book = CardBook::new();
    book.create_credit_card_settings(&ledger, card_input()).unwrap();
    spend(&mut ledger, d(2025, 3, 1), 10_000);
    let first = book.generate_statement(&ledger, 1, d(2025, 3, 10)).unwrap();
    assert_eq!(first.closing_balance, 10_000);
    spend(&mut ledger, d(2025, 4, 1), 500);
    pay(&mut ledger, d(2025, 4, 2), 700);
    let second = book.generate_statement(&ledger, 1, d(2025, 4, 10)).unwrap();
    assert_eq!(second.id, 2);
    assert_eq!(second.opening_balance, 10_000);
    assert_eq!(second.total_charges, 500);
    assert_eq!(second.total_payments, 700);
    assert_eq!(second.closing_balance, 9_800);
    assert_eq!(second.minimum_payment, 490);
}

#[test]
fn minimum_payment_is_never_negative() {
    let mut ledger = ledger();
    let mut book = CardBook::new();
    book.create_credit_card_settings(&ledger, card_input()).unwrap();
    pay(&mut ledger, d(2025, 3, 2), 700);
    let s = book.generate_statement(&ledger, 1, d(2025, 3, 10)).unwrap();
    assert_eq!(s.closing_balance, -700);
    assert_eq!(s.minimum_payment, 0);
}

#[test]
fn payment_goes_to_the_statement_that_is_due_first() {
    let ledger = ledger();
    let mut book = CardBook::new();
    book.create_credit_card_settings(&ledger, card_input()).unwrap();
    book.restore_statement(statement(1, d(2025, 5, 15), 4_000, 0, StatementStatus::Closed)).unwrap();
    book.restore_statement(statement(2, d(2025, 3, 15), 1_000, 0, StatementStatus::Closed)).unwrap();
    book.restore_statement(statement(3, d(2025, 4, 15), 2_000, 500, StatementStatus::Partial)).unwrap();
    book.restore_statement(statement(4, d(2025, 2, 15), 900, 900, StatementStatus::Paid)).unwrap();

    book.update_statement_payment_status(1, 3_000, d(2025, 6, 1));

    let s = book.statements();
    assert_eq!((s[1].paid_amount, s[1].status), (1_000, StatementStatus::Paid));
    assert_eq!((s[2].paid_amount, s[2].status), (2_000, StatementStatus::Paid));
    assert_eq!((s[0].paid_amount, s[0].status), (500, StatementStatus::Partial));
    assert_eq!((s[3].paid_amount, s[3].status), (900, StatementStatus::Paid));
    assert_eq!(s[0].paid_date, Some(d(2025, 6, 1)));
    assert_eq!(s[1].paid_date, Some(d(2025, 6, 1)));
    assert_eq!(s[3].paid_date, None);
    for row in s.iter() {
        assert!(row.closing_balance - row.paid_amount >= 0);
    }
}

#[test]
fn payment_beyond_all_that_is_owed_stops_at_what_is_owed() {
    let ledger = ledger();
    let mut book = CardBook::new();
    book.create_credit_card_settings(&ledger, card_input()).unwrap();
    book.restore_statement(statement(1, d(2025, 5, 15), 4_000, 0, StatementStatus::Closed)).unwrap();
    book.restore_statement(statement(2, d(2025, 3, 15), 1_000, 0, StatementStatus::Open)).unwrap();
    book.update_statement_payment_status(1, 1_000_000, d(2025, 6, 1));
    let s = book.statements();
    assert_eq!((s[0].paid_amount, s[0].status), (4_000, StatementStatus::Paid));
    assert_eq!((s[1].paid_amount, s[1].status), (1_000, StatementStatus::Paid));
}

#[test]
fn payment_of_nothing_changes_nothing() {
    let ledger = ledger();
    let mut book = CardBook::new();
    book.create_credit_card_settings(&ledger, card_input()).unwrap();
    let row = statement(1, d(2025, 5, 15), 4_000, 0, StatementStatus::Closed);
    book.restore_statement(row).unwrap();
    book.update_statement_payment_status(1, 0, d(2025, 6, 1));
    book.update_statement_payment_status(1, -5, d(2025, 6, 1));
    book.update_statement_payment_status(2, 500, d(2025, 6, 1));
    assert_eq!(book.statements()[0], row);
}

#[test]
fn statements_due_on_one_day_are_paid_in_the_order_of_the_book() {
    let ledger = ledger();
    let mut book = CardBook::new();
    book.create_credit_card_settings(&ledger, card_input()).unwrap();
    book.restore_statement(statement(1, d(2025, 5, 15), 400, 0, StatementStatus::Closed)).unwrap();
    book.restore_statement(statement(2, d(2025, 5, 15), 400, 0, StatementStatus::Closed)).unwrap();
    book.update_statement_payment_status(1, 500, d(2025, 6, 1));
    let s = book.statements();
    assert_eq!(s[0].paid_amount, 400);
    assert_eq!(s[1].paid_amount, 100);
    assert_eq!(s[1].status, StatementStatus::Partial);
}

#[test]
fn settling_posts_a_transfer_and_pays_the_statements() {
    let mut ledger = ledger();
    let mut book = CardBook::new();
    book.create_credit_card_settings(&ledger, card_input()).unwrap();
    spend(&mut ledger, d(2025, 3, 1), 10_000);
    book.generate_statement(&ledger, 1, d(2025, 3, 10)).unwrap();
    let input = SettlementInput {
        credit_card_settings_id: 1,
        payment_account_id: 1,
        amount: Some(4_000),
        date: Some(d(2025, 4, 1)),
    };
    let id = settle_credit_card(&mut book, &mut ledger, input, d(2025, 4, 2)).unwrap();
    let posted = &ledger.postings()[ledger.postings().len() - 1];
    assert_eq!(posted.transaction.id, id);
    assert_eq!(posted.transaction.transaction_type, TransactionType::Transfer);
    assert_eq!(posted.transaction.amount, 4_000);
    assert_eq!(posted.transaction.account_id, 1);
    assert_eq!(posted.transaction.to_account_id, Some(2));
    assert_eq!(posted.transaction.date, d(2025, 4, 1));
    assert_eq!(posted.transaction.memo.as_deref(), Some("Credit card payment - 2"));
    assert_eq!(posted.entries.len(), 2);
    assert_eq!(posted.entries[0].credit, posted.entries[1].debit);
    assert_eq!(book.statements()[0].paid_amount, 4_000);
    assert_eq!(book.statements()[0].status, StatementStatus::Partial);

    let rest = SettlementInput { amount: None, date: None, ..input };
    settle_credit_card(&mut book, &mut ledger, rest, d(2025, 4, 2)).unwrap();
    let last = &ledger.postings()[ledger.postings().len() - 1];
    assert_eq!(last.transaction.amount, 6_000);
    assert_eq!(last.transaction.date, d(2025, 4, 2));
    assert_eq!(book.statements()[0].paid_amount, 10_000);
    assert_eq!(book.statements()[0].status, StatementStatus::Paid);

    assert_eq!(
        settle_credit_card(&mut book, &mut ledger, rest, d(2025, 4, 2)),
        Err(EngineError::NothingToPay)
    );
}

#[test]
fn settling_is_refused_for_bad_requests() {
    let mut ledger = ledger();
    let mut book = CardBook::new();
    book.create_credit_card_settings(&ledger, card_input()).unwrap();
    let good = SettlementInput {
        credit_card_settings_id: 1,
        payment_account_id: 1,
        amount: Some(100),
        date: None,
    };
    let today = d(2025, 4, 2);
    let mut bad = good;
    bad.credit_card_settings_id = 9;
    assert_eq!(settle_credit_card(&mut book, &mut ledger, bad, today), Err(EngineError::CardNotFound));
    bad = good;
    bad.payment_account_id = 9;
    assert_eq!(
        settle_credit_card(&mut book, &mut ledger, bad, today),
        Err(EngineError::PaymentAccountNotFound)
    );
    bad = good;
    bad.payment_account_id = 3;
    assert_eq!(
        settle_credit_card(&mut book, &mut ledger, bad, today),
        Err(EngineError::PaymentNotAsset)
    );
    bad = good;
    bad.amount = Some(0);
    assert_eq!(
        settle_credit_card(&mut book, &mut ledger, bad, today),
        Err(EngineError::NonPositiveAmount)
    );
    assert_eq!(ledger.postings().len(), 0);
}

#[test]
fn card_balances_follow_the_journal() {
    let mut ledger = ledger();
    let mut book = CardBook::new();
    let card = book.create_credit_card_settings(&ledger, card_input()).unwrap();
    spend(&mut ledger, d(2025, 2, 1), 100_000);
    spend(&mut ledger, d(2025, 3, 1), 30_000);
    pay(&mut ledger, d(2025, 3, 5), 5_000);
    let b = calculate_card_balances(&ledger, &card, d(2025, 3, 10)).unwrap();
    assert_eq!(b.total_balance, 125_000);
    assert_eq!(b.current_cycle_charges, 30_000);
    assert_eq!(b.current_cycle_payments, 5_000);
    assert_eq!(b.outstanding_balance, 25_000);
    assert_eq!(b.available_credit, 375_000);
    assert_eq!(b.utilization_percentage, 2_500);

    let details = get_credit_card_details(&book, &ledger, 1, d(2025, 3, 10)).unwrap();
    assert_eq!(details.settings, card);
    assert_eq!(details.balances, b);
    assert_eq!(
        get_credit_card_details(&book, &ledger, 2, d(2025, 3, 10)),
        Err(EngineError::CardNotFound)
    );
}

#[test]
fn card_without_limit_has_no_utilization() {
    let mut ledger = ledger();
    let card = CreditCardSettings {
        id: 1,
        account_id: 2,
        credit_limit: 0,
        statement_day: 25,
        payment_due_day: 15,
        minimum_payment_percentage: 500,
        auto_settlement_enabled: false,
        settlement_account_id: None,
    };
    spend(&mut ledger, d(2025, 3, 1), 30_000);
    let b = calculate_card_balances(&ledger, &card, d(2025, 3, 10)).unwrap();
    assert_eq!(b.total_balance, 30_000);
    assert_eq!(b.available_credit, 0);
    assert_eq!(b.utilization_percentage, 0);
}

#[test]
fn overpaid_card_owes_nothing() {
    let mut ledger = ledger();
    let mut book = CardBook::new();
    let card = book.create_credit_card_settings(&ledger, card_input()).unwrap();
    pay(&mut ledger, d(2025, 3, 5), 5_000);
    let b = calculate_card_balances(&ledger, &card, d(2025, 3, 10)).unwrap();
    assert_eq!(b.total_balance, 0);
    assert_eq!(b.outstanding_balance, 0);
    assert_eq!(b.available_credit, 500_000);
}

#[test]
fn summaries_show_the_statement_that_is_due_next() {
    let mut ledger = ledger();
    let mut book = CardBook::new();
    book.create_credit_card_settings(&ledger, card_input()).unwrap();
    spend(&mut ledger, d(2025, 3, 1), 10_000);
    let summaries = get_credit_card_summaries(&book, &ledger, d(2025, 3, 10)).unwrap();
    assert_eq!(summaries.len(), 1);
    assert_eq!(summaries[0].next_due_date, None);
    assert_eq!(summaries[0].next_due_amount, None);
    book.restore_statement(statement(1, d(2025, 5, 15), 4_000, 0, StatementStatus::Closed)).unwrap();
    book.restore_statement(statement(2, d(2025, 4, 15), 2_000, 500, StatementStatus::Partial)).unwrap();
    let summaries = get_credit_card_summaries(&book, &ledger, d(2025, 3, 10)).unwrap();
    assert_eq!(summaries[0].account_id, 2);
    assert_eq!(summaries[0].total_balance, 10_000);
    assert_eq!(summaries[0].credit_limit, 500_000);
    assert_eq!(summaries[0].available_credit, 490_000);
    assert_eq!(summaries[0].utilization_percentage, 200);
    assert_eq!(summaries[0].next_due_date, Some(d(2025, 4, 15)));
    assert_eq!(summaries[0].next_due_amount, Some(1_500));
}

#[test]
fn auto_settlement_pays_on_the_due_day_once() {
    let mut ledger = ledger();
    let mut book = CardBook::new();
    let mut input = card_input();
    input.auto_settlement_enabled = Some(true);
    input.settlement_account_id = Some(1);
    book.create_credit_card_settings(&ledger, input).unwrap();
    spend(&mut ledger, d(2025, 3, 1), 10_000);
    book.generate_statement(&ledger, 1, d(2025, 3, 10)).unwrap();

    assert_eq!(process_auto_settlements(&mut book, &mut ledger, d(2025, 4, 14)), Vec::<i64>::new());
    let ids = process_auto_settlements(&mut book, &mut ledger, d(2025, 4, 15));
    assert_eq!(ids.len(), 1);
    let posted = &ledger.postings()[ledger.postings().len() - 1];
    assert_eq!(posted.transaction.id, ids[0]);
    assert_eq!(posted.transaction.amount, 10_000);
    assert!(posted.transaction.auto_settlement);
    assert_eq!(posted.transaction.memo.as_deref(), Some("Auto-settlement - 2"));
    assert_eq!(book.statements()[0].status, StatementStatus::Paid);

    spend(&mut ledger, d(2025, 4, 1), 700);
    book.generate_statement(&ledger, 1, d(2025, 4, 10)).unwrap();
    assert_eq!(process_auto_settlements(&mut book, &mut ledger, d(2025, 4, 15)), Vec::<i64>::new());
    assert_eq!(process_auto_settlements(&mut book, &mut ledger, d(2025, 5, 15)).len(), 1);
}

#[test]
fn statements_are_listed_with_their_transactions() {
    let mut ledger = ledger();
    let mut book = CardBook::new();
    let card = book.create_credit_card_settings(&ledger, card_input()).unwrap();
    spend(&mut ledger, d(2025, 3, 1), 10_000);
    pay(&mut ledger, d(2025, 3, 5), 4_000);
    spend(&mut ledger, d(2025, 3, 26), 1);
    book.generate_statement(&ledger, 1, d(2025, 3, 10)).unwrap();
    assert_eq!(get_statements(&book, 1).len(), 1);
    assert_eq!(get_statements(&book, 2).len(), 0);
    let with = get_statement_with_transactions(&book, &ledger, 1).unwrap();
    assert_eq!(with.statement.id, 1);
    assert_eq!(with.transactions.iter().map(|t| t.id).collect::<Vec<_>>(), vec![1, 2]);
    assert_eq!(
        get_statement_with_transactions(&book, &ledger, 5).err(),
        Some(EngineError::StatementNotFound)
    );
    let running = get_current_cycle_transactions(&book, &ledger, 1, d(2025, 3, 27)).unwrap();
    assert_eq!(running.iter().map(|t| t.id).collect::<Vec<_>>(), vec![3]);
    let earlier = get_current_cycle_transactions(&book, &ledger, 1, d(2025, 3, 10)).unwrap();
    assert_eq!(earlier.iter().map(|t| t.id).collect::<Vec<_>>(), vec![2, 1]);
    assert_eq!(
        get_current_cycle_transactions(&book, &ledger, 4, d(2025, 3, 27)).err(),
        Some(EngineError::CardNotFound)
    );
    assert_eq!(get_credit_card_settings_by_account(&book, 2), Some(card));
    assert_eq!(get_credit_card_settings_by_account(&book, 1), None);
    let cycle = book.get_current_billing_cycle(1, d(2025, 3, 10)).unwrap();
    assert_eq!(cycle.cycle_start_date, d(2025, 2, 26));
    assert_eq!(cycle.cycle_end_date, d(2025, 3, 25));
    assert_eq!(cycle.due_date, d(2025, 4, 15));
    assert_eq!(cycle.days_remaining, 15);
}

#[test]
fn all_cards_are_shown_with_their_balances() {
    let mut ledger = ledger();
    let mut book = CardBook::new();
    let second = CreditCardSettings {
        id: 7,
        account_id: 3,
        credit_limit: 100_000,
        statement_day: 10,
        payment_due_day: 5,
        minimum_payment_percentage: 500,
        auto_settlement_enabled: false,
        settlement_account_id: None,
    };
    assert_eq!(book.restore_card(second), Ok(()));
    assert_eq!(book.restore_card(second), Err(EngineError::DuplicateId));
    assert_eq!(
        book.restore_card(CreditCardSettings { id: 8, statement_day: 29, ..second }),
        Err(EngineError::InvalidRecord)
    );
    let first = book.create_credit_card_settings(&ledger, card_input()).unwrap();
    assert_eq!(first.id, 8);
    spend(&mut ledger, d(2025, 3, 1), 30_000);
    let shown = get_all_credit_cards(&book, &ledger, d(2025, 3, 10)).unwrap();
    assert_eq!(shown.len(), 2);
    assert_eq!(shown[0].settings, second);
    assert_eq!(shown[0].balances.total_balance, 0);
    assert_eq!(shown[0].balances.available_credit, 100_000);
    assert_eq!(shown[1].settings, first);
    assert_eq!(shown[1].balances.total_balance, 30_000);
    assert_eq!(get_all_credit_cards(&CardBook::new(), &ledger, d(2025, 3, 10)), Ok(vec![]));
}

#[test]
fn statements_are_listed_with_the_latest_cycle_first() {
    let ledger = ledger();
    let mut book = CardBook::new();
    book.create_credit_card_settings(&ledger, card_input()).unwrap();
    let of_cycle = |id: i64, end: Date| CreditCardStatement {
        cycle_start_date: d(end.year, end.month, 1),
        cycle_end_date: end,
        ..statement(id, d(2026, 1, 1), 100, 0, StatementStatus::Closed)
    };
    book.restore_statement(of_cycle(1, d(2025, 2, 25))).unwrap();
    book.restore_statement(of_cycle(2, d(2025, 4, 25))).unwrap();
    book.restore_statement(of_cycle(3, d(2025, 3, 25))).unwrap();
    let order: Vec<i64> = get_statements(&book, 1).iter().map(|s| s.id).collect();
    assert_eq!(order, vec![2, 3, 1]);
}
