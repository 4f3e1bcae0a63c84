use money_manager::balance::balance_as_of;
use money_manager::date::Date;
use money_manager::installments::{
    calculate_next_due_date, create_installment_plan, parse_installment_frequency, payment_amount,
    process_installment_payment,
    remaining_of, CreateInstallmentPlan, InstallmentFrequency, PlanStatus,
};
use money_manager::ledger::{Ledger, NewAccount};
use money_manager::model::{
    AccountType, Category, CategoryType, CurrencyCode, EngineError, TransactionType,
};
use money_manager::recurring::{
    calculate_next_execution_date, create_recurring_transaction, execute_recurring,
    get_upcoming_executions, parse_frequency, process_recurring_transactions,
    skip_next_occurrence, CreateRecurringTransactionInput, Frequency,
};
use money_manager::photos::{
    check_image_extension, count_removed, has_ending, is_orphan, is_photo_file, CleanupResult,
};
use money_manager::security::{
    set_pin, verify_pin, verify_pin_internal, check_lockout, get_security_status, record_attempt, set_lock_timeout, validate_pin_format,
    LockState, PinOutcome,
};
use money_manager::templates::{
    create_template, is_blank_text, update_template, CreateTemplateInput, TransactionTemplate,
    UpdateTemplateInput,
};

fn d(year: i32, month: u32, day: u32) -> Date {
    Date { year, month, day }
}

fn ledger() -> Ledger {
    let mut ledger = Ledger::new();
    let account = |kind| NewAccount {
        group_id: 1,
        account_type: kind,
        name: "account".to_string(),
        initial_balance: 100_000,
        currency: CurrencyCode { a: b'L', b: b'K', c: b'R' },
    };
    ledger.restore_account(1, account(AccountType::Asset)).unwrap();
    ledger.restore_account(2, account(AccountType::Asset)).unwrap();
    ledger
        .restore_category(Category {
            id: 1,
            parent_id: None,
            name: "Rent".to_string(),
            category_type: CategoryType::Expense,
        })
        .unwrap();
    ledger
}

#[test]
fn pin_must_be_four_to_eight_digits() {
    assert_eq!(validate_pin_format("1234"), Ok(()));
    assert_eq!(validate_pin_format("12345678"), Ok(()));
    assert_eq!(validate_pin_format("123"), Err(EngineError::PinLength));
    assert_eq!(validate_pin_format("123456789"), Err(EngineError::PinLength));
    assert_eq!(validate_pin_format(""), Err(EngineError::PinLength));
    assert_eq!(validate_pin_format("12a4"), Err(EngineError::PinNotDigits));
    assert_eq!(validate_pin_format("12 4"), Err(EngineError::PinNotDigits));
    assert_eq!(validate_pin_format("١٢"), Err(EngineError::PinNotDigits));
    assert_eq!(validate_pin_format("abc"), Err(EngineError::PinLength));
}

#[test]
fn five_wrong_attempts_lock_for_thirty_seconds() {
    let mut state = LockState { failed_attempts: 0, lockout_until: None };
    for remaining in [4, 3, 2, 1] {
        let (next, outcome) = record_attempt(state, 1_000, false);
        assert_eq!(outcome, PinOutcome::Incorrect { remaining });
        state = next;
    }
    let (locked, outcome) = record_attempt(state, 1_000, false);
    assert_eq!(outcome, PinOutcome::LockedNow { seconds: 30 });
    assert_eq!(locked, LockState { failed_attempts: 5, lockout_until: Some(1_030) });
    assert_eq!(
        record_attempt(locked, 1_010, true),
        (locked, PinOutcome::StillLocked { seconds: 20 })
    );
    assert_eq!(check_lockout(locked, 1_029), Err(PinOutcome::StillLocked { seconds: 1 }));
    assert_eq!(
        check_lockout(locked, 1_030),
        Ok(LockState { failed_attempts: 0, lockout_until: None })
    );
    assert_eq!(
        record_attempt(locked, 1_030, false),
        (LockState { failed_attempts: 1, lockout_until: None }, PinOutcome::Incorrect { remaining: 4 })
    );
    assert_eq!(
        record_attempt(state, 1_000, true),
        (LockState { failed_attempts: 0, lockout_until: None }, PinOutcome::Accepted)
    );
    let status = get_security_status(true, 5, locked, 1_001);
    assert!(status.is_locked_out);
    assert_eq!(status.failed_attempts, 5);
    assert!(!get_security_status(true, 5, locked, 2_000).is_locked_out);
    assert_eq!(set_lock_timeout(-1), Err(EngineError::NegativeTimeout));
    assert_eq!(set_lock_timeout(0), Ok(0));
}

#[test]
fn next_execution_follows_the_frequency() {
    let from = d(2025, 1, 31);
    assert_eq!(calculate_next_execution_date(&from, Frequency::Daily, 1), Ok(d(2025, 2, 1)));
    assert_eq!(calculate_next_execution_date(&from, Frequency::Weekly, 1), Ok(d(2025, 2, 7)));
    assert_eq!(calculate_next_execution_date(&from, Frequency::Custom, 10), Ok(d(2025, 2, 10)));
    assert_eq!(
        calculate_next_execution_date(&from, Frequency::Monthly, 1),
        Err(EngineError::DateOutOfRange)
    );
    assert_eq!(calculate_next_execution_date(&d(2025, 1, 28), Frequency::Monthly, 1), Ok(d(2025, 2, 28)));
    assert_eq!(calculate_next_execution_date(&d(2025, 12, 5), Frequency::Monthly, 1), Ok(d(2026, 1, 5)));
    assert_eq!(calculate_next_execution_date(&from, Frequency::Yearly, 1), Ok(d(2026, 1, 31)));
    assert_eq!(
        calculate_next_execution_date(&d(2024, 2, 29), Frequency::Yearly, 1),
        Err(EngineError::DateOutOfRange)
    );
    assert_eq!(parse_frequency("WEEKLY"), Some(Frequency::Weekly));
    assert_eq!(parse_frequency("weekly"), None);
}

fn recurring_input(kind: &str, frequency: &str, amount: i64) -> CreateRecurringTransactionInput {
    CreateRecurringTransactionInput {
        name: "Rent".to_string(),
        description: None,
        transaction_type: kind.to_string(),
        amount,
        account_id: 1,
        to_account_id: None,
        category_id: Some(1),
        frequency: frequency.to_string(),
        interval_days: Some(0),
        start_date: "2025-01-10".to_string(),
        end_date: Some("2025-03-01".to_string()),
    }
}

#[test]
fn recurring_requests_are_validated() {
    let ledger = ledger();
    assert_eq!(
        create_recurring_transaction(&ledger, 1, &recurring_input("RENT", "MONTHLY", 5)),
        Err(EngineError::InvalidKind)
    );
    assert_eq!(
        create_recurring_transaction(&ledger, 1, &recurring_input("EXPENSE", "HOURLY", 5)),
        Err(EngineError::InvalidFrequency)
    );
    assert_eq!(
        create_recurring_transaction(&ledger, 1, &recurring_input("EXPENSE", "MONTHLY", 0)),
        Err(EngineError::NonPositiveAmount)
    );
    let mut input = recurring_input("TRANSFER", "MONTHLY", 5);
    assert_eq!(create_recurring_transaction(&ledger, 1, &input), Err(EngineError::DestinationRequired));
    input.to_account_id = Some(1);
    assert_eq!(create_recurring_transaction(&ledger, 1, &input), Err(EngineError::SelfTransfer));
    input = recurring_input("EXPENSE", "MONTHLY", 5);
    input.end_date = Some("2025-01-10".to_string());
    assert_eq!(create_recurring_transaction(&ledger, 1, &input), Err(EngineError::EndBeforeStart));
    input.start_date = "soon".to_string();
    assert_eq!(create_recurring_transaction(&ledger, 1, &input), Err(EngineError::MalformedDate));
    let rec = create_recurring_transaction(&ledger, 4, &recurring_input("EXPENSE", "CUSTOM", 5)).unwrap();
    assert_eq!(rec.id, 4);
    assert_eq!(rec.interval_days, 1);
    assert_eq!(rec.next_execution_date, d(2025, 1, 10));
    assert_eq!(rec.end_date, Some(d(2025, 3, 1)));
    assert!(rec.is_active);
}

#[test]
fn due_schedules_post_and_move_on() {
    let mut ledger = ledger();
    let rec = create_recurring_transaction(&ledger, 1, &recurring_input("EXPENSE", "MONTHLY", 5_000)).unwrap();
    let (same, posted) = execute_recurring(&mut ledger, rec, d(2025, 1, 9));
    assert_eq!((same, posted), (rec, None));
    let (after, posted) = execute_recurring(&mut ledger, rec, d(2025, 1, 12));
    assert_eq!(posted, Some(1));
    assert_eq!(after.next_execution_date, d(2025, 2, 10));
    assert_eq!(after.last_executed_date, Some(d(2025, 1, 12)));
    assert_eq!(after.execution_count, 1);
    assert!(after.is_active);
    assert_eq!(ledger.postings()[0].transaction.date, d(2025, 1, 12));
    assert_eq!(ledger.postings()[0].transaction.transaction_type, TransactionType::Expense);
    assert_eq!(balance_as_of(&ledger, 1, None), Ok(95_000));
    let (second, _) = execute_recurring(&mut ledger, after, d(2025, 2, 10));
    assert_eq!(second.next_execution_date, d(2025, 2, 10));
    assert!(!second.is_active);
    assert_eq!(second.execution_count, 2);
    assert_eq!(second.last_executed_date, Some(d(2025, 2, 10)));
    let skipped = skip_next_occurrence(after).unwrap();
    assert!(!skipped.is_active);
    assert_eq!(skipped.next_execution_date, d(2025, 2, 10));
    let early = skip_next_occurrence(rec).unwrap();
    assert_eq!(early.next_execution_date, d(2025, 2, 10));
    assert!(early.is_active);
}

#[test]
fn all_due_schedules_are_processed() {
    let mut ledger = ledger();
    let a = create_recurring_transaction(&ledger, 1, &recurring_input("EXPENSE", "DAILY", 100)).unwrap();
    let mut b = create_recurring_transaction(&ledger, 2, &recurring_input("EXPENSE", "WEEKLY", 200)).unwrap();
    b.account_id = 9;
    let mut c = create_recurring_transaction(&ledger, 3, &recurring_input("INCOME", "WEEKLY", 300)).unwrap();
    c.next_execution_date = d(2025, 1, 20);
    let mut recs = vec![a, b, c];
    let ids = process_recurring_transactions(&mut ledger, &mut recs, d(2025, 1, 10));
    assert_eq!(ids, vec![1]);
    assert_eq!(recs[0].next_execution_date, d(2025, 1, 11));
    assert_eq!(recs[1], b);
    assert_eq!(recs[2], c);
    let upcoming = get_upcoming_executions(&recs, 10, d(2025, 1, 10)).unwrap();
    assert_eq!(upcoming.len(), 3);
    assert_eq!(upcoming[0].days_until_execution, 1);
    assert_eq!(upcoming[1].days_until_execution, 0);
    assert_eq!(upcoming[2].days_until_execution, 10);
    assert_eq!(get_upcoming_executions(&recs, 9, d(2025, 1, 10)).unwrap().len(), 2);
}

fn plan_input(total: i64, count: i32) -> CreateInstallmentPlan {
    CreateInstallmentPlan {
        total_amount: total,
        num_installments: count,
        account_id: 1,
        category_id: 1,
        start_date: d(2025, 1, 31),
        frequency: InstallmentFrequency::Monthly,
    }
}

#[test]
fn installments_fall_due_in_steps_of_days() {
    let start = d(2025, 1, 31);
    assert_eq!(calculate_next_due_date(start, InstallmentFrequency::Monthly, 1), Ok(start));
    assert_eq!(calculate_next_due_date(start, InstallmentFrequency::Monthly, 2), Ok(d(2025, 3, 2)));
    assert_eq!(calculate_next_due_date(start, InstallmentFrequency::Weekly, 3), Ok(d(2025, 2, 14)));
    assert_eq!(calculate_next_due_date(start, InstallmentFrequency::Daily, 3), Ok(d(2025, 2, 2)));
    assert_eq!(calculate_next_due_date(start, InstallmentFrequency::Daily, 0), Ok(d(2025, 1, 30)));
}

#[test]
fn plans_are_validated() {
    let ledger = ledger();
    assert_eq!(create_installment_plan(&ledger, 1, plan_input(0, 3)), Err(EngineError::NonPositiveAmount));
    assert_eq!(create_installment_plan(&ledger, 1, plan_input(10, 0)), Err(EngineError::InvalidInstallments));
    let mut bad = plan_input(10, 3);
    bad.account_id = 5;
    assert_eq!(create_installment_plan(&ledger, 1, bad), Err(EngineError::AccountNotFound));
    bad = plan_input(10, 3);
    bad.category_id = 5;
    assert_eq!(create_installment_plan(&ledger, 1, bad), Err(EngineError::CategoryNotFound));
    let plan = create_installment_plan(&ledger, 6, plan_input(10_000, 3)).unwrap();
    assert_eq!(plan.amount_per_installment, 3_333);
    assert_eq!(plan.next_due_date, d(2025, 1, 31));
    assert_eq!(plan.status, PlanStatus::Active);
    assert_eq!(create_installment_plan(&ledger, 6, plan_input(5, 2)).unwrap().amount_per_installment, 3);
}

#[test]
fn last_installment_pays_what_is_left() {
    let mut ledger = ledger();
    let mut plan = create_installment_plan(&ledger, 6, plan_input(10_000, 3)).unwrap();
    let mut paid = Vec::new();
    for n in 1..=3 {
        assert_eq!(remaining_of(&plan).1, 4 - n as i64);
        let (after, payment) = process_installment_payment(&mut ledger, plan, "Sofa", d(2025, 2, n)).unwrap();
        assert_eq!(payment.installment_number, n as i32);
        assert_eq!(payment.due_date, plan.next_due_date);
        assert_eq!(payment.transaction_id, n as i64);
        paid.push(payment.amount);
        plan = after;
    }
    assert_eq!(paid, vec![3_333, 3_333, 3_334]);
    assert_eq!(plan.status, PlanStatus::Completed);
    assert_eq!(plan.total_paid, 10_000);
    assert_eq!(plan.installments_paid, 3);
    assert_eq!(remaining_of(&plan), (0, 0));
    assert_eq!(balance_as_of(&ledger, 1, None), Ok(90_000));
    assert_eq!(
        process_installment_payment(&mut ledger, plan, "Sofa", d(2025, 2, 4)),
        Err(EngineError::PlanCompleted)
    );
    let mut cancelled = plan;
    cancelled.status = PlanStatus::Cancelled;
    assert_eq!(
        process_installment_payment(&mut ledger, cancelled, "Sofa", d(2025, 2, 4)),
        Err(EngineError::PlanCancelled)
    );
    let mut done = plan;
    done.status = PlanStatus::Active;
    assert_eq!(
        process_installment_payment(&mut ledger, done, "Sofa", d(2025, 2, 4)),
        Err(EngineError::AllInstallmentsPaid)
    );
    assert_eq!(ledger.postings().len(), 3);
    let fresh = create_installment_plan(&ledger, 7, plan_input(10_000, 3)).unwrap();
    assert_eq!(payment_amount(&fresh), 3_333);
    let (second, _) = process_installment_payment(&mut ledger, fresh, "Sofa", d(2025, 2, 1)).unwrap();
    assert_eq!(second.next_due_date, d(2025, 3, 2));
}

fn template(kind: &str, name: &str, amount: i64) -> CreateTemplateInput {
    CreateTemplateInput {
        name: name.to_string(),
        transaction_type: kind.to_string(),
        amount,
        account_id: Some(1),
        to_account_id: None,
        category_id: Some(1),
        memo: None,
    }
}

#[test]
fn templates_are_validated() {
    let ledger = ledger();
    assert_eq!(
        create_template(&ledger, 4, &template("EXPENSE", "Rent", 0)),
        Ok(TransactionTemplate {
            id: 4,
            transaction_type: TransactionType::Expense,
            amount: 0,
            account_id: Some(1),
            to_account_id: None,
            category_id: Some(1),
            use_count: 0,
        })
    );
    assert_eq!(create_template(&ledger, 4, &template("LOAN", "Rent", 0)), Err(EngineError::InvalidKind));
    assert_eq!(create_template(&ledger, 4, &template("EXPENSE", "  \t", 0)), Err(EngineError::EmptyName));
    assert_eq!(create_template(&ledger, 4, &template("EXPENSE", "Rent", -1)), Err(EngineError::NegativeAmount));
    let mut t = template("EXPENSE", "Rent", 1);
    t.account_id = Some(9);
    assert_eq!(create_template(&ledger, 4, &t), Err(EngineError::AccountNotFound));
    t = template("EXPENSE", "Rent", 1);
    t.to_account_id = Some(9);
    assert_eq!(create_template(&ledger, 4, &t), Err(EngineError::DestinationNotFound));
    t = template("EXPENSE", "Rent", 1);
    t.category_id = Some(9);
    assert_eq!(create_template(&ledger, 4, &t), Err(EngineError::CategoryNotFound));
    t = template("TRANSFER", "Move", 1);
    assert_eq!(create_template(&ledger, 4, &t), Err(EngineError::DestinationRequired));
    t.to_account_id = Some(1);
    assert_eq!(create_template(&ledger, 4, &t), Err(EngineError::SelfTransfer));
    t.to_account_id = Some(2);
    assert_eq!(create_template(&ledger, 4, &t).map(|made| made.to_account_id), Ok(Some(2)));
    assert!(is_blank_text(""));
    assert!(!is_blank_text(" a "));

    let nothing = UpdateTemplateInput {
        id: 1,
        name: None,
        amount: None,
        account_id: None,
        to_account_id: None,
        category_id: None,
        memo: None,
    };
    let stored = create_template(&ledger, 1, &template("EXPENSE", "Rent", 700)).unwrap();
    let mut templates = vec![stored];
    assert_eq!(
        update_template(&ledger, &mut templates, &UpdateTemplateInput {
            id: 2,
            name: None,
            amount: None,
            account_id: None,
            to_account_id: None,
            category_id: None,
            memo: Some("note".to_string()),
        }),
        Err(EngineError::TemplateNotFound)
    );
    assert_eq!(update_template(&ledger, &mut templates, &nothing), Err(EngineError::NothingToUpdate));
    let named = UpdateTemplateInput { name: Some(" ".to_string()), ..nothing };
    assert_eq!(update_template(&ledger, &mut templates, &named), Err(EngineError::EmptyName));
    let nothing = UpdateTemplateInput {
        id: 1,
        name: None,
        amount: None,
        account_id: None,
        to_account_id: None,
        category_id: None,
        memo: None,
    };
    let priced = UpdateTemplateInput { amount: Some(-2), ..nothing };
    assert_eq!(update_template(&ledger, &mut templates, &priced), Err(EngineError::NegativeAmount));
    let misplaced = UpdateTemplateInput {
        id: 1,
        name: None,
        amount: None,
        account_id: None,
        to_account_id: None,
        category_id: Some(9),
        memo: None,
    };
    assert_eq!(update_template(&ledger, &mut templates, &misplaced), Err(EngineError::CategoryNotFound));
    assert_eq!(templates, vec![stored]);
    let nothing = UpdateTemplateInput {
        id: 1,
        name: None,
        amount: None,
        account_id: None,
        to_account_id: None,
        category_id: None,
        memo: Some("note".to_string()),
    };
    assert_eq!(update_template(&ledger, &mut templates, &nothing), Ok(0));
    assert_eq!(templates, vec![stored]);
    let moved = UpdateTemplateInput {
        id: 1,
        name: None,
        amount: Some(900),
        account_id: Some(2),
        to_account_id: None,
        category_id: None,
        memo: None,
    };
    assert_eq!(update_template(&ledger, &mut templates, &moved), Ok(0));
    assert_eq!(
        templates,
        vec![TransactionTemplate { amount: 900, account_id: Some(2), ..stored }]
    );
}

const PASSWORD_HASH: &str = "$2a$04$UuTkLRZZ6QofpDOlMz32MuuxEHA43WOemOYHPz6.SjsVsyO1tDU96";

#[test]
fn pin_is_compared_with_its_hash() {
    assert_eq!(verify_pin_internal("password", PASSWORD_HASH), Ok(()));
    assert_eq!(verify_pin_internal("wrong", PASSWORD_HASH), Err(EngineError::IncorrectPin));
    assert_eq!(verify_pin_internal("password", ""), Err(EngineError::NoPinSet));
    assert_eq!(
        verify_pin_internal("password", "not a hash"),
        Err(EngineError::PinVerificationFailed)
    );
    let fresh = LockState { failed_attempts: 3, lockout_until: None };
    assert_eq!(
        verify_pin(fresh, 50, "password", PASSWORD_HASH),
        (LockState { failed_attempts: 0, lockout_until: None }, PinOutcome::Accepted)
    );
    assert_eq!(
        verify_pin(fresh, 50, "wrong", PASSWORD_HASH),
        (LockState { failed_attempts: 4, lockout_until: None }, PinOutcome::Incorrect { remaining: 1 })
    );
    let locked = LockState { failed_attempts: 5, lockout_until: Some(80) };
    assert_eq!(
        verify_pin(locked, 50, "password", PASSWORD_HASH),
        (locked, PinOutcome::StillLocked { seconds: 30 })
    );
}

#[test]
fn setting_a_pin_asks_for_the_current_one() {
    assert_eq!(set_pin("12", None, false, ""), Err(EngineError::PinLength));
    assert_eq!(set_pin("12ab", None, false, ""), Err(EngineError::PinNotDigits));
    assert_eq!(set_pin("1234", None, true, PASSWORD_HASH), Err(EngineError::CurrentPinRequired));
    assert_eq!(set_pin("1234", Some("wrong"), true, PASSWORD_HASH), Err(EngineError::IncorrectPin));
    let hashed = set_pin("1234", Some("password"), true, PASSWORD_HASH).unwrap();
    assert_ne!(hashed, "1234");
    assert_eq!(verify_pin_internal("1234", &hashed), Ok(()));
    assert_eq!(verify_pin_internal("4321", &hashed), Err(EngineError::IncorrectPin));
}

#[test]
fn photos_are_told_by_their_names() {
    assert!(is_photo_file("receipt_1.jpg"));
    assert!(is_photo_file("receipt_1.JPEG"));
    assert!(is_photo_file("a.webp"));
    assert!(is_photo_file(".png"));
    assert!(!is_photo_file("notes.txt"));
    assert!(!is_photo_file("jpg"));
    assert!(!is_photo_file("a.gif"));
    assert!(has_ending("a.tar.gz", ".GZ"));
    assert!(!has_ending("gz", ".gz"));
    assert_eq!(check_image_extension("gif"), Ok(()));
    assert_eq!(check_image_extension("bmp"), Ok(()));
    assert_eq!(check_image_extension("tiff"), Err(EngineError::UnsupportedImage));
    assert_eq!(check_image_extension(""), Err(EngineError::UnsupportedImage));
    let referenced = vec!["a.jpg".to_string(), "b.png".to_string()];
    assert!(!is_orphan("a.jpg", &referenced));
    assert!(is_orphan("c.jpg", &referenced));
    assert!(is_orphan("A.jpg", &referenced));
    assert!(!is_orphan("c.txt", &referenced));
    let start = CleanupResult { files_deleted: 0, bytes_freed: 0 };
    let one = count_removed(start, 2_048);
    assert_eq!(one, CleanupResult { files_deleted: 1, bytes_freed: 2_048 });
    assert_eq!(count_removed(one, u64::MAX).bytes_freed, i64::MAX);
}

#[test]
fn installment_frequencies_are_read_from_text() {
    assert_eq!(parse_installment_frequency("MONTHLY"), Some(InstallmentFrequency::Monthly));
    assert_eq!(parse_installment_frequency("WEEKLY"), Some(InstallmentFrequency::Weekly));
    assert_eq!(parse_installment_frequency("DAILY"), Some(InstallmentFrequency::Daily));
    assert_eq!(parse_installment_frequency("YEARLY"), None);
    assert_eq!(parse_installment_frequency("daily"), None);
    assert_eq!(parse_installment_frequency(""), None);
}
