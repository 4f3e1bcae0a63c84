use money_manager::analytics::{get_monthly_trends, month_name, months_back, MonthlyTrend};
use money_manager::budgets::BudgetPeriod;
use money_manager::date::Date;
use money_manager::export::{
    decimal_digits, export_transactions_csv, plain_amount, push_amount, ExportRow,
};
use money_manager::installments::{
    cancel_installment_plan, create_installment_plan, delete_installment_plan,
    get_installment_plan, get_installment_plan_with_details, get_installment_plans,
    get_upcoming_installments, process_installment_payment, CreateInstallmentPlan,
    InstallmentFrequency, InstallmentPlan, PaymentStatus, PlanStatus,
};
use money_manager::ledger::{Ledger, NewAccount, TransactionDraft};
use money_manager::model::{
    AccountType, Category, CategoryType, CurrencyCode, EngineError, TransactionType,
};
use money_manager::recurring::{
    create_recurring_transaction, delete_recurring_transaction, find_recurring,
    get_recurring_transactions, toggle_recurring_transaction, update_recurring_transaction,
    CreateRecurringTransactionInput, Frequency, RecurringTransaction,
    UpdateRecurringTransactionInput,
};
use money_manager::security::{is_pin_enabled, remove_pin};
use money_manager::settings::{
    restore_from_backup, BackupAccount, BackupBudget, BackupCategory, BackupData,
    BackupTransaction,
};
use money_manager::templates::{
    delete_template, find_template, get_templates, use_template, TransactionTemplate,
};

fn d(year: i32, month: u32, day: u32) -> Date {
    Date { year, month, day }
}

fn ledger() -> Ledger {
    let mut ledger = Ledger::new();
    let account = |kind| NewAccount {
        group_id: 1,
        account_type: kind,
        name: "account".to_string(),
        initial_balance: 100_000,
        currency: CurrencyCode { a: b'L', b: b'K', c: b'R' },
    };
    ledger.restore_account(1, account(AccountType::Asset)).unwrap();
    ledger.restore_account(2, account(AccountType::Asset)).unwrap();
    ledger
        .restore_category(Category {
            id: 1,
            parent_id: None,
            name: "Rent".to_string(),
            category_type: CategoryType::Expense,
        })
        .unwrap();
    ledger
}

fn post(ledger: &mut Ledger, kind: TransactionType, date: Date, amount: i64) -> i64 {
    ledger
        .post(TransactionDraft {
            date,
            transaction_type: kind,
            amount,
            account_id: 1,
            to_account_id: if kind == TransactionType::Transfer { Some(2) } else { None },
            category_id: None,
            memo: None,
            photo_path: None,
            auto_settlement: false,
        })
        .unwrap()
}

#[test]
fn months_are_counted_back_as_the_store_counts_them() {
    assert_eq!(months_back(d(2025, 3, 15), 0), d(2025, 3, 15));
    assert_eq!(months_back(d(2025, 3, 15), 2), d(2025, 1, 15));
    assert_eq!(months_back(d(2025, 3, 15), 3), d(2024, 12, 15));
    assert_eq!(months_back(d(2025, 3, 31), 1), d(2025, 3, 3));
    assert_eq!(months_back(d(2024, 3, 31), 1), d(2024, 3, 2));
    assert_eq!(months_back(d(2025, 5, 31), 1), d(2025, 5, 1));
    assert_eq!(months_back(d(2025, 1, 31), 12), d(2024, 1, 31));
    assert_eq!(months_back(d(-262143, 2, 1), 5), d(-262143, 1, 1));
    assert_eq!(month_name(1), "January");
    assert_eq!(month_name(9), "September");
    assert_eq!(month_name(12), "December");
    assert_eq!(month_name(0), "Unknown");
    assert_eq!(month_name(13), "Unknown");
}

#[test]
fn trends_show_each_month_with_a_transaction() {
    let mut ledger = ledger();
    post(&mut ledger, TransactionType::Expense, d(2025, 2, 20), 300);
    post(&mut ledger, TransactionType::Income, d(2024, 12, 14), 70);
    post(&mut ledger, TransactionType::Income, d(2024, 12, 15), 1_000);
    post(&mut ledger, TransactionType::Expense, d(2024, 12, 31), 250);
    post(&mut ledger, TransactionType::Transfer, d(2025, 2, 1), 40);
    post(&mut ledger, TransactionType::Income, d(2025, 4, 2), 5);
    let rows = get_monthly_trends(&ledger, 3, d(2025, 3, 15));
    assert_eq!(
        rows,
        vec![
            MonthlyTrend {
                year: 2024,
                month: 12,
                income: 1_000,
                expense: 250,
                net: 750,
                transaction_count: 2
            },
            MonthlyTrend {
                year: 2025,
                month: 2,
                income: 0,
                expense: 300,
                net: -300,
                transaction_count: 2
            },
            MonthlyTrend {
                year: 2025,
                month: 4,
                income: 5,
                expense: 0,
                net: 5,
                transaction_count: 1
            },
        ]
    );
    assert_eq!(get_monthly_trends(&ledger, 0, d(2025, 3, 15)).len(), 1);
    assert_eq!(get_monthly_trends(&ledger, -1, d(2025, 3, 15)), vec![]);
    assert_eq!(get_monthly_trends(&Ledger::new(), 12, d(2025, 3, 15)), vec![]);
}

fn schedule(id: i64, next: Date) -> RecurringTransaction {
    let mut ledger = ledger();
    let _ = &mut ledger;
    let input = CreateRecurringTransactionInput {
        name: "Rent".to_string(),
        description: None,
        transaction_type: "EXPENSE".to_string(),
        amount: 500,
        account_id: 1,
        to_account_id: None,
        category_id: Some(1),
        frequency: "MONTHLY".to_string(),
        interval_days: None,
        start_date: "2025-01-01".to_string(),
        end_date: None,
    };
    let mut rec = create_recurring_transaction(&ledger, id, &input).unwrap();
    rec.next_execution_date = next;
    rec
}

fn no_change(id: i64) -> UpdateRecurringTransactionInput {
    UpdateRecurringTransactionInput {
        id,
        name: None,
        description: None,
        amount: None,
        frequency: None,
        interval_days: None,
        end_date: None,
    }
}

#[test]
fn schedules_are_changed_by_their_identifier() {
    let mut recs = vec![schedule(1, d(2025, 3, 1)), schedule(2, d(2025, 2, 1))];
    let before = recs.clone();
    assert_eq!(
        update_recurring_transaction(&mut recs, &no_change(9)),
        Err(EngineError::RecurringNotFound)
    );
    assert_eq!(
        update_recurring_transaction(&mut recs, &no_change(2)),
        Err(EngineError::NothingToUpdate)
    );
    let bad = UpdateRecurringTransactionInput { amount: Some(0), ..no_change(2) };
    assert_eq!(update_recurring_transaction(&mut recs, &bad), Err(EngineError::NonPositiveAmount));
    let bad = UpdateRecurringTransactionInput {
        frequency: Some("HOURLY".to_string()),
        ..no_change(2)
    };
    assert_eq!(update_recurring_transaction(&mut recs, &bad), Err(EngineError::InvalidFrequency));
    let bad = UpdateRecurringTransactionInput { interval_days: Some(0), ..no_change(2) };
    assert_eq!(update_recurring_transaction(&mut recs, &bad), Err(EngineError::InvalidInterval));
    let bad = UpdateRecurringTransactionInput {
        end_date: Some("2025-13-01".to_string()),
        ..no_change(2)
    };
    assert_eq!(update_recurring_transaction(&mut recs, &bad), Err(EngineError::MalformedDate));
    assert_eq!(recs, before);
    let change = UpdateRecurringTransactionInput {
        amount: Some(750),
        frequency: Some("CUSTOM".to_string()),
        interval_days: Some(10),
        end_date: Some("2026-01-01".to_string()),
        ..no_change(2)
    };
    assert_eq!(update_recurring_transaction(&mut recs, &change), Ok(1));
    assert_eq!(recs[0], before[0]);
    assert_eq!(
        recs[1],
        RecurringTransaction {
            amount: 750,
            frequency: Frequency::Custom,
            interval_days: 10,
            end_date: Some(d(2026, 1, 1)),
            ..before[1]
        }
    );
    let named = UpdateRecurringTransactionInput { name: Some("x".to_string()), ..no_change(1) };
    assert_eq!(update_recurring_transaction(&mut recs, &named), Ok(0));
    assert_eq!(recs[0], before[0]);
}

#[test]
fn schedules_are_switched_listed_and_removed() {
    let mut recs =
        vec![schedule(1, d(2025, 3, 1)), schedule(2, d(2025, 2, 1)), schedule(3, d(2025, 2, 15))];
    assert_eq!(find_recurring(&recs, 3), Some(2));
    assert_eq!(find_recurring(&recs, 4), None);
    assert_eq!(toggle_recurring_transaction(&mut recs, 2), Ok((1, false)));
    assert!(!recs[1].is_active);
    assert_eq!(toggle_recurring_transaction(&mut recs, 2), Ok((1, true)));
    assert!(recs[1].is_active);
    assert_eq!(toggle_recurring_transaction(&mut recs, 7), Err(EngineError::RecurringNotFound));
    let listed: Vec<i64> = get_recurring_transactions(&recs).iter().map(|r| r.id).collect();
    assert_eq!(listed, vec![2, 3, 1]);
    assert_eq!(delete_recurring_transaction(&mut recs, 7), Err(EngineError::RecurringNotFound));
    assert_eq!(delete_recurring_transaction(&mut recs, 2), Ok(1));
    assert_eq!(recs.iter().map(|r| r.id).collect::<Vec<_>>(), vec![1, 3]);
}

fn plan(ledger: &Ledger, id: i64, start: Date) -> InstallmentPlan {
    create_installment_plan(
        ledger,
        id,
        CreateInstallmentPlan {
            total_amount: 1_000,
            num_installments: 3,
            account_id: 1,
            category_id: 1,
            start_date: start,
            frequency: InstallmentFrequency::Weekly,
        },
    )
    .unwrap()
}

#[test]
fn plans_show_their_payments() {
    let mut ledger = ledger();
    let first = plan(&ledger, 1, d(2025, 1, 1));
    let other = plan(&ledger, 2, d(2025, 1, 10));
    let (first, paid_one) = process_installment_payment(&mut ledger, first, "Sofa", d(2025, 1, 2)).unwrap();
    let (other, paid_other) = process_installment_payment(&mut ledger, other, "Sofa", d(2025, 1, 10)).unwrap();
    let (first, paid_two) = process_installment_payment(&mut ledger, first, "Sofa", d(2025, 1, 20)).unwrap();
    assert_eq!(ledger.postings()[0].transaction.memo.as_deref(), Some("Sofa - Installment 1/3"));
    assert_eq!(ledger.postings()[2].transaction.memo.as_deref(), Some("Sofa - Installment 2/3"));
    let plans = vec![first, other];
    let payments = vec![paid_one, paid_other, paid_two];
    assert_eq!(get_installment_plan(&plans, 2), Ok(other));
    assert_eq!(get_installment_plan(&plans, 3), Err(EngineError::PlanNotFound));
    let shown = get_installment_plan_with_details(&plans, &payments, 1, d(2025, 1, 10)).unwrap();
    assert_eq!(shown.plan, first);
    assert_eq!(shown.remaining_amount, 1_000 - 333 - 333);
    assert_eq!(shown.remaining_installments, 1);
    assert_eq!(shown.next_payment_amount, 333);
    assert_eq!(shown.payments.len(), 2);
    assert_eq!(shown.payments[0].payment, paid_one);
    assert_eq!(shown.payments[0].installment_number, 1);
    assert_eq!(shown.payments[0].due_date, d(2025, 1, 1));
    assert_eq!(shown.payments[0].paid_date, Some(d(2025, 1, 2)));
    assert_eq!(shown.payments[0].status, PaymentStatus::Paid);
    assert_eq!(shown.payments[1].payment, paid_two);
    assert_eq!(shown.payments[1].due_date, d(2025, 1, 8));
    assert_eq!(shown.payments[1].status, PaymentStatus::Pending);
    assert_eq!(
        get_installment_plan_with_details(&plans, &payments, 9, d(2025, 1, 10)).err(),
        Some(EngineError::PlanNotFound)
    );
}

#[test]
fn plans_are_cancelled_listed_and_removed() {
    let ledger = ledger();
    let mut plans = vec![
        plan(&ledger, 1, d(2025, 3, 1)),
        plan(&ledger, 2, d(2025, 1, 10)),
        plan(&ledger, 3, d(2025, 2, 1)),
    ];
    assert_eq!(cancel_installment_plan(&mut plans, 5), None);
    assert_eq!(cancel_installment_plan(&mut plans, 3), Some(2));
    assert_eq!(plans[2].status, PlanStatus::Cancelled);
    let order = |rows: Vec<InstallmentPlan>| rows.iter().map(|p| p.id).collect::<Vec<_>>();
    assert_eq!(order(get_installment_plans(&plans, None)), vec![2, 3, 1]);
    assert_eq!(order(get_installment_plans(&plans, Some(PlanStatus::Active))), vec![2, 1]);
    assert_eq!(order(get_installment_plans(&plans, Some(PlanStatus::Cancelled))), vec![3]);
    assert_eq!(order(get_installment_plans(&plans, Some(PlanStatus::Completed))), vec![]);
    assert_eq!(order(get_upcoming_installments(&plans, 60, d(2025, 1, 5)).unwrap()), vec![2, 1]);
    assert_eq!(order(get_upcoming_installments(&plans, 5, d(2025, 1, 5)).unwrap()), vec![2]);
    assert_eq!(order(get_upcoming_installments(&plans, 4, d(2025, 1, 5)).unwrap()), vec![]);
    assert_eq!(order(get_upcoming_installments(&plans, 60, d(2025, 1, 11)).unwrap()), vec![1]);
    assert_eq!(
        get_upcoming_installments(&plans, i32::MAX, d(262142, 1, 1)),
        Err(EngineError::DateOutOfRange)
    );
    let mut paying = ledger;
    let (_, payment) = process_installment_payment(&mut paying, plans[1], "Sofa", d(2025, 1, 10)).unwrap();
    let payments = vec![payment];
    assert_eq!(
        delete_installment_plan(&mut plans, &payments, 2),
        Err(EngineError::PlanHasPayments)
    );
    assert_eq!(plans.len(), 3);
    assert_eq!(delete_installment_plan(&mut plans, &payments, 8), Ok(None));
    assert_eq!(delete_installment_plan(&mut plans, &payments, 1), Ok(Some(0)));
    assert_eq!(order(plans), vec![2, 3]);
}

#[test]
fn a_payment_that_cannot_be_posted_is_refused() {
    let mut ledger = ledger();
    let mut gone = plan(&ledger, 1, d(2025, 1, 1));
    gone.account_id = 9;
    assert_eq!(
        process_installment_payment(&mut ledger, gone, "Sofa", d(2025, 1, 2)).err(),
        Some(EngineError::AccountNotFound)
    );
    let mut overpaid = plan(&ledger, 1, d(2025, 1, 1));
    overpaid.installments_paid = 2;
    overpaid.total_paid = 1_000;
    assert_eq!(
        process_installment_payment(&mut ledger, overpaid, "Sofa", d(2025, 1, 2)).err(),
        Some(EngineError::NonPositiveAmount)
    );
    let mut late = plan(&ledger, 1, d(262142, 12, 30));
    late.frequency = InstallmentFrequency::Monthly;
    assert_eq!(
        process_installment_payment(&mut ledger, late, "Sofa", d(2025, 1, 2)).err(),
        Some(EngineError::DateOutOfRange)
    );
    assert_eq!(ledger.postings().len(), 0);
}

fn pattern(id: i64, use_count: i64) -> TransactionTemplate {
    TransactionTemplate {
        id,
        transaction_type: TransactionType::Expense,
        amount: 100,
        account_id: Some(1),
        to_account_id: None,
        category_id: None,
        use_count,
    }
}

#[test]
fn templates_count_their_uses() {
    let mut templates = vec![pattern(1, 0), pattern(2, 5), pattern(3, 2), pattern(4, i64::MAX)];
    assert_eq!(find_template(&templates, 3), Some(2));
    assert_eq!(use_template(&mut templates, 3), Ok(pattern(3, 3)));
    assert_eq!(templates[2], pattern(3, 3));
    assert_eq!(use_template(&mut templates, 4), Ok(pattern(4, i64::MAX)));
    assert_eq!(use_template(&mut templates, 9), Err(EngineError::TemplateNotFound));
    let order: Vec<i64> = get_templates(&templates).iter().map(|t| t.id).collect();
    assert_eq!(order, vec![4, 2, 3, 1]);
    assert_eq!(delete_template(&mut templates, 9), Err(EngineError::TemplateNotFound));
    assert_eq!(delete_template(&mut templates, 2), Ok(1));
    assert_eq!(templates.iter().map(|t| t.id).collect::<Vec<_>>(), vec![1, 3, 4]);
}

const PASSWORD_HASH: &str = "$2a$04$UuTkLRZZ6QofpDOlMz32MuuxEHA43WOemOYHPz6.SjsVsyO1tDU96";

#[test]
fn the_lock_is_taken_away_with_the_pin_only() {
    assert_eq!(remove_pin("password", PASSWORD_HASH), Ok(()));
    assert_eq!(remove_pin("wrong", PASSWORD_HASH), Err(EngineError::IncorrectPin));
    assert_eq!(remove_pin("password", ""), Err(EngineError::NoPinSet));
    assert_eq!(remove_pin("password", "$2a$"), Err(EngineError::PinVerificationFailed));
    assert!(is_pin_enabled("true"));
    assert!(!is_pin_enabled("false"));
    assert!(!is_pin_enabled("TRUE"));
    assert!(!is_pin_enabled(""));
}

fn text(bytes: Vec<u8>) -> String {
    String::from_utf8(bytes).unwrap()
}

#[test]
fn amounts_are_written_in_decimal() {
    assert_eq!(text(decimal_digits(0)), "0");
    assert_eq!(text(decimal_digits(7)), "7");
    assert_eq!(text(decimal_digits(10)), "10");
    assert_eq!(text(decimal_digits(u64::MAX)), "18446744073709551615");
    let two_places = |amount: i64| {
        let mut out = b"=".to_vec();
        push_amount(&mut out, amount);
        text(out)
    };
    assert_eq!(two_places(0), "=0.00");
    assert_eq!(two_places(5), "=0.05");
    assert_eq!(two_places(50), "=0.50");
    assert_eq!(two_places(123_456), "=1234.56");
    assert_eq!(two_places(-1), "=-0.01");
    assert_eq!(two_places(-120_000), "=-1200.00");
    assert_eq!(two_places(i64::MAX), "=92233720368547758.07");
    assert_eq!(two_places(i64::MIN), "=-92233720368547758.08");
    assert_eq!(text(plain_amount(0)), "0.0");
    assert_eq!(text(plain_amount(1_200)), "12.0");
    assert_eq!(text(plain_amount(1_250)), "12.5");
    assert_eq!(text(plain_amount(1_205)), "12.05");
    assert_eq!(text(plain_amount(-99)), "-0.99");
}

#[test]
fn transactions_are_exported_as_rows_of_fields() {
    let rows = vec![
        ExportRow {
            date: "2025-01-05".to_string(),
            transaction_type: TransactionType::Expense,
            account_name: "Bank".to_string(),
            to_account_name: None,
            category_name: Some("Food".to_string()),
            amount: 1_250,
            memo: Some("the \"good\" bread".to_string()),
        },
        ExportRow {
            date: "2025-01-06".to_string(),
            transaction_type: TransactionType::Transfer,
            account_name: "Bank".to_string(),
            to_account_name: Some("Card".to_string()),
            category_name: None,
            amount: 100_000,
            memo: None,
        },
        ExportRow {
            date: "2025-01-07".to_string(),
            transaction_type: TransactionType::Income,
            account_name: "Caf\u{e9}".to_string(),
            to_account_name: None,
            category_name: None,
            amount: 7,
            memo: Some("\"".to_string()),
        },
    ];
    assert_eq!(
        text(export_transactions_csv(&rows)),
        "Date,Type,Account,To Account,Category,Amount,Memo\n\
         \"2025-01-05\",\"EXPENSE\",\"Bank\",\"\",\"Food\",12.50,\"the \"\"good\"\" bread\"\n\
         \"2025-01-06\",\"TRANSFER\",\"Bank\",\"Card\",\"\",1000.00,\"\"\n\
         \"2025-01-07\",\"INCOME\",\"Caf\u{e9}\",\"\",\"\",0.07,\"\"\"\"\n"
    );
    assert_eq!(
        text(export_transactions_csv(&Vec::new())),
        "Date,Type,Account,To Account,Category,Amount,Memo\n"
    );
}

fn small_backup() -> BackupData {
    BackupData {
        accounts: vec![
            BackupAccount {
                id: 10,
                group_id: 1,
                account_type: AccountType::Asset,
                name: "Bank".to_string(),
                initial_balance: 5_000,
                currency: CurrencyCode { a: b'U', b: b'S', c: b'D' },
            },
            BackupAccount {
                id: 20,
                group_id: 2,
                account_type: AccountType::Liability,
                name: "Card".to_string(),
                initial_balance: 0,
                currency: CurrencyCode { a: b'U', b: b'S', c: b'D' },
            },
        ],
        categories: vec![
            BackupCategory {
                id: 7,
                parent_id: Some(9),
                name: "Groceries".to_string(),
                category_type: CategoryType::Expense,
            },
            BackupCategory {
                id: 9,
                parent_id: None,
                name: "Food".to_string(),
                category_type: CategoryType::Expense,
            },
        ],
        transactions: vec![BackupTransaction {
            date: d(2025, 1, 5),
            transaction_type: TransactionType::Expense,
            amount: 300,
            account_id: 20,
            to_account_id: None,
            category_id: Some(7),
            memo: None,
            photo_path: Some("receipt.jpg".to_string()),
        }],
        budgets: vec![
            BackupBudget {
                category_id: 7,
                amount: 2_000,
                period: BudgetPeriod::Monthly,
                start_date: d(2025, 1, 1),
            },
            BackupBudget {
                category_id: 99,
                amount: 10,
                period: BudgetPeriod::Yearly,
                start_date: d(2025, 2, 1),
            },
        ],
    }
}

#[test]
fn a_backup_comes_back_in_its_order() {
    let (ledger, budgets, result) = restore_from_backup(small_backup()).unwrap();
    assert!(result.success);
    let accounts = ledger.accounts();
    assert_eq!((accounts[0].id, accounts[0].name.as_str()), (1, "Bank"));
    assert_eq!((accounts[1].id, accounts[1].name.as_str()), (2, "Card"));
    assert_eq!(accounts[1].account_type, AccountType::Liability);
    assert_eq!(accounts[1].group_id, 2);
    let categories = ledger.categories();
    assert_eq!((categories[0].id, categories[0].name.as_str()), (1, "Food"));
    assert_eq!(categories[0].parent_id, None);
    assert_eq!((categories[1].id, categories[1].name.as_str()), (2, "Groceries"));
    assert_eq!(categories[1].parent_id, Some(1));
    let posted = &ledger.postings()[0];
    assert_eq!(posted.transaction.id, 1);
    assert_eq!(posted.transaction.account_id, 2);
    assert_eq!(posted.transaction.category_id, Some(2));
    assert_eq!(posted.transaction.photo_path.as_deref(), Some("receipt.jpg"));
    assert_eq!(posted.entries.len(), 1);
    assert_eq!((posted.entries[0].debit, posted.entries[0].credit), (0, 300));
    assert_eq!(ledger.next_transaction_id(), 2);
    let rows = budgets.get_budgets();
    assert_eq!((rows[0].id, rows[0].category_id, rows[0].amount), (1, 2, 2_000));
    assert_eq!((rows[1].id, rows[1].category_id, rows[1].period), (2, 99, BudgetPeriod::Yearly));
}

#[test]
fn a_backup_that_breaks_a_rule_is_refused() {
    let mut data = small_backup();
    data.accounts[1].initial_balance = i64::MAX;
    assert_eq!(restore_from_backup(data).err(), Some(EngineError::AmountOutOfRange));
    let mut data = small_backup();
    data.categories[0].parent_id = Some(55);
    assert_eq!(restore_from_backup(data).err(), Some(EngineError::ParentNotFound));
    let mut data = small_backup();
    data.categories.push(BackupCategory {
        id: 11,
        parent_id: Some(12),
        name: "Early child".to_string(),
        category_type: CategoryType::Expense,
    });
    data.categories.push(BackupCategory {
        id: 12,
        parent_id: Some(9),
        name: "Late parent".to_string(),
        category_type: CategoryType::Expense,
    });
    assert_eq!(restore_from_backup(data).err(), Some(EngineError::ParentNotFound));
    let mut data = small_backup();
    data.transactions[0].category_id = Some(1_000);
    assert_eq!(restore_from_backup(data).err(), Some(EngineError::CategoryNotFound));
    let mut data = small_backup();
    data.transactions[0].transaction_type = TransactionType::Transfer;
    assert_eq!(restore_from_backup(data).err(), Some(EngineError::DestinationRequired));
    let mut data = small_backup();
    data.budgets[1].amount = 0;
    assert_eq!(restore_from_backup(data).err(), Some(EngineError::InvalidRecord));
    let mut data = small_backup();
    data.budgets[0].start_date = d(2025, 2, 30);
    assert_eq!(restore_from_backup(data).err(), Some(EngineError::InvalidRecord));
    let mut data = small_backup();
    data.transactions[0].account_id = 1;
    data.budgets[0].amount = -1;
    assert_eq!(restore_from_backup(data).err(), Some(EngineError::AccountNotFound));
}
