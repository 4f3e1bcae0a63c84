use money_manager::accounts::create_account;
use money_manager::categories::{create_category, get_categories_with_children, update_category};
use money_manager::date::Date;
use money_manager::ledger::{Ledger, TransactionDraft};
use money_manager::model::{
    AccountGroup, AccountType, CategoryType, CreateAccountInput, CreateCategoryInput,
    CreateTransactionInput, CurrencyCode, EngineError, Transaction, TransactionType,
    UpdateCategoryInput,
    UpdateTransactionInput,
};
use money_manager::settings::{
    clear_all_data, restore_from_backup, BackupAccount, BackupBudget, BackupCategory, BackupData,
    BackupTransaction,
};
use money_manager::budgets::{BudgetBook, BudgetPeriod};
use money_manager::transactions::{
    get_export_transactions, get_transactions, search_transactions, ExportFilter, contains_text,
    create_transaction, get_account_transactions, get_account_transactions_by_date,
    get_transactions_filtered,
    update_transaction, TransactionFilter,
};
use money_manager::balance::{balance_as_of, Scope};

fn d(year: i32, month: u32, day: u32) -> Date {
    Date { year, month, day }
}

fn ids(rows: &[Transaction]) -> Vec<i64> {
    rows.iter().map(|t| t.id).collect()
}

fn groups() -> Vec<AccountGroup> {
    vec![
        AccountGroup { id: 1, name: "Cash".to_string(), account_type: AccountType::Asset },
        AccountGroup { id: 2, name: "Credit Card".to_string(), account_type: AccountType::Liability },
    ]
}

fn account_input(group: i64, name: &str, initial: i64) -> CreateAccountInput {
    CreateAccountInput { group_id: group, name: name.to_string(), initial_balance: initial, currency: None }
}

fn category_input(parent: Option<i64>, name: &str, kind: &str) -> CreateCategoryInput {
    CreateCategoryInput { parent_id: parent, name: name.to_string(), category_type: kind.to_string() }
}

fn ledger() -> Ledger {
    let mut ledger = Ledger::new();
    create_account(&mut ledger, &groups(), account_input(1, "Wallet", 10_000)).unwrap();
    create_account(&mut ledger, &groups(), account_input(2, "Visa", 0)).unwrap();
    create_category(&mut ledger, category_input(None, "Food", "EXPENSE")).unwrap();
    create_category(&mut ledger, category_input(Some(1), "Groceries", "EXPENSE")).unwrap();
    create_category(&mut ledger, category_input(None, "Salary", "INCOME")).unwrap();
    ledger
}

fn transaction(kind: &str, date: &str, amount: i64, category: Option<i64>, memo: Option<&str>) -> CreateTransactionInput {
    CreateTransactionInput {
        date: date.to_string(),
        transaction_type: kind.to_string(),
        amount,
        account_id: 1,
        to_account_id: None,
        category_id: category,
        memo: memo.map(|m| m.to_string()),
    }
}

#[test]
fn accounts_take_their_side_from_the_group() {
    let mut ledger = Ledger::new();
    assert_eq!(
        create_account(&mut ledger, &groups(), account_input(7, "Nowhere", 0)),
        Err(EngineError::GroupNotFound)
    );
    assert_eq!(create_account(&mut ledger, &groups(), account_input(2, "Visa", -5)), Ok(1));
    assert_eq!(create_account(&mut ledger, &groups(), account_input(1, "Wallet", 5)), Ok(2));
    let accounts = ledger.accounts();
    assert_eq!(accounts[0].account_type, AccountType::Liability);
    assert_eq!(accounts[0].name, "Visa");
    assert_eq!(accounts[0].currency, CurrencyCode { a: b'L', b: b'K', c: b'R' });
    assert_eq!(accounts[1].account_type, AccountType::Asset);
    assert_eq!(accounts[1].initial_balance, 5);
    assert_eq!(
        create_account(&mut ledger, &groups(), account_input(1, "Rich", i64::MAX)),
        Err(EngineError::AmountOutOfRange)
    );
}

#[test]
fn categories_are_validated() {
    let mut ledger = ledger();
    assert_eq!(
        create_category(&mut ledger, category_input(None, "Odd", "TRANSFER")),
        Err(EngineError::InvalidKind)
    );
    assert_eq!(
        create_category(&mut ledger, category_input(Some(9), "Lost", "EXPENSE")),
        Err(EngineError::ParentNotFound)
    );
    assert_eq!(ledger.categories().len(), 3);
    assert_eq!(ledger.categories()[1].parent_id, Some(1));
    assert_eq!(ledger.categories()[2].category_type, CategoryType::Income);

    let update = |id, name: Option<&str>, parent| UpdateCategoryInput {
        id,
        name: name.map(|n| n.to_string()),
        parent_id: parent,
    };
    assert_eq!(update_category(&mut ledger, update(9, Some("x"), None)), Err(EngineError::CategoryNotFound));
    assert_eq!(update_category(&mut ledger, update(2, None, Some(2))), Err(EngineError::SelfParent));
    assert_eq!(update_category(&mut ledger, update(2, None, Some(8))), Err(EngineError::ParentNotFound));
    assert_eq!(update_category(&mut ledger, update(2, None, None)), Err(EngineError::NothingToUpdate));
    assert_eq!(update_category(&mut ledger, update(2, Some("Market"), Some(3))), Ok(()));
    assert_eq!(ledger.categories()[1].name, "Market");
    assert_eq!(ledger.categories()[1].parent_id, Some(3));
    assert_eq!(ledger.categories()[1].id, 2);
}

#[test]
fn deleting_a_category_in_use_fails() {
    let mut ledger = ledger();
    create_transaction(&mut ledger, transaction("EXPENSE", "2025-01-05", 100, Some(2), None)).unwrap();
    assert_eq!(ledger.delete_category(2), Err(EngineError::CategoryInUse));
    assert_eq!(ledger.delete_category(1), Err(EngineError::CategoryHasChildren));
    assert_eq!(ledger.categories().len(), 3);
    assert_eq!(ledger.delete_category(3), Ok(()));
    assert_eq!(ledger.categories().len(), 2);
    ledger.delete_transaction(1).unwrap();
    assert_eq!(ledger.delete_category(2), Ok(()));
    assert_eq!(ledger.delete_category(1), Ok(()));
    assert_eq!(ledger.delete_category(1), Ok(()));
    assert_eq!(ledger.categories().len(), 0);
}

#[test]
fn categories_are_listed_with_their_children() {
    let mut ledger = ledger();
    create_category(&mut ledger, category_input(Some(1), "Dining", "EXPENSE")).unwrap();
    let rows = get_categories_with_children(&ledger);
    assert_eq!(rows.len(), 2);
    assert_eq!(rows[0].category_id, 1);
    assert_eq!(rows[0].children, vec![2, 4]);
    assert_eq!(rows[1].category_id, 3);
    assert_eq!(rows[1].children, Vec::<i64>::new());
}

#[test]
fn updating_a_transaction_leaves_its_entries_alone() {
    let mut ledger = ledger();
    create_transaction(&mut ledger, transaction("EXPENSE", "2025-01-05", 100, Some(2), Some("milk"))).unwrap();
    let update = |id, date: Option<&str>, amount, category, memo: Option<&str>| UpdateTransactionInput {
        id,
        date: date.map(|s| s.to_string()),
        amount,
        category_id: category,
        memo: memo.map(|s| s.to_string()),
    };
    assert_eq!(
        update_transaction(&mut ledger, update(5, None, None, None, Some("x"))),
        Err(EngineError::TransactionNotFound)
    );
    assert_eq!(
        update_transaction(&mut ledger, update(1, Some("tomorrow"), None, None, None)),
        Err(EngineError::MalformedDate)
    );
    assert_eq!(
        update_transaction(&mut ledger, update(1, None, Some(999), None, None)),
        Err(EngineError::NothingToUpdate)
    );
    assert_eq!(
        update_transaction(&mut ledger, update(1, None, None, Some(77), None)),
        Err(EngineError::CategoryNotFound)
    );
    assert_eq!(update_transaction(&mut ledger, update(1, Some("2025-02-01"), Some(5), Some(1), None)), Ok(()));
    let p = &ledger.postings()[0];
    assert_eq!(p.transaction.date, d(2025, 2, 1));
    assert_eq!(p.transaction.category_id, Some(1));
    assert_eq!(p.transaction.memo.as_deref(), Some("milk"));
    assert_eq!(p.transaction.amount, 100);
    assert_eq!(p.entries.len(), 1);
    assert_eq!(p.entries[0].credit, 100);
    assert_eq!(balance_as_of(&ledger, 1, Some(d(2025, 1, 31))), Ok(10_000));
    assert_eq!(balance_as_of(&ledger, 1, Some(d(2025, 2, 1))), Ok(9_900));
}

#[test]
fn photo_references_are_carried_by_the_transaction() {
    let mut ledger = ledger();
    create_transaction(&mut ledger, transaction("EXPENSE", "2025-01-05", 100, None, None)).unwrap();
    assert_eq!(ledger.set_photo_path(1, Some("a.jpg".to_string())), Ok(None));
    assert_eq!(ledger.postings()[0].transaction.photo_path.as_deref(), Some("a.jpg"));
    assert_eq!(ledger.set_photo_path(1, None), Ok(Some("a.jpg".to_string())));
    assert_eq!(ledger.postings()[0].transaction.photo_path, None);
    assert_eq!(ledger.set_photo_path(4, None), Err(EngineError::TransactionNotFound));
}

#[test]
fn text_is_found_without_regard_to_case() {
    assert!(contains_text("Weekly groceries", "GROC"));
    assert!(contains_text("Weekly groceries", "weekly"));
    assert!(contains_text("Weekly groceries", "ies"));
    assert!(contains_text("Weekly groceries", ""));
    assert!(contains_text("", ""));
    assert!(!contains_text("Weekly groceries", "grocer y"));
    assert!(!contains_text("abc", "abcd"));
    assert!(!contains_text("", "a"));
    assert!(contains_text("aab", "ab"));
}

#[test]
fn transactions_are_filtered() {
    let mut ledger = ledger();
    create_transaction(&mut ledger, transaction("EXPENSE", "2025-01-05", 100, Some(2), Some("Milk and bread"))).unwrap();
    create_transaction(&mut ledger, transaction("EXPENSE", "2025-01-20", 200, Some(1), Some("lunch"))).unwrap();
    create_transaction(&mut ledger, transaction("INCOME", "2025-02-01", 900, Some(3), None)).unwrap();
    let mut transfer = transaction("TRANSFER", "2025-02-03", 50, None, Some("to card"));
    transfer.to_account_id = Some(2);
    create_transaction(&mut ledger, transfer).unwrap();
    ledger
        .post(TransactionDraft {
            date: d(2025, 2, 4),
            transaction_type: TransactionType::Expense,
            amount: 75,
            account_id: 2,
            to_account_id: None,
            category_id: None,
            memo: None,
            photo_path: None,
            auto_settlement: false,
        })
        .unwrap();
    let all = TransactionFilter {
        start_date: None,
        end_date: None,
        transaction_type: None,
        account_id: None,
        category_id: None,
        search_query: None,
        include_subcategories: None,
    };
    assert_eq!(ids(&get_transactions_filtered(&ledger, &all)), vec![5, 4, 3, 2, 1]);
    let f = TransactionFilter { start_date: Some(d(2025, 1, 20)), end_date: Some(d(2025, 2, 3)), ..all };
    assert_eq!(ids(&get_transactions_filtered(&ledger, &f)), vec![4, 3, 2]);
    let all = || TransactionFilter {
        start_date: None,
        end_date: None,
        transaction_type: None,
        account_id: None,
        category_id: None,
        search_query: None,
        include_subcategories: None,
    };
    let f = TransactionFilter { transaction_type: Some(TransactionType::Expense), ..all() };
    assert_eq!(ids(&get_transactions_filtered(&ledger, &f)), vec![5, 2, 1]);
    let f = TransactionFilter { account_id: Some(2), ..all() };
    assert_eq!(ids(&get_transactions_filtered(&ledger, &f)), vec![5, 4]);
    let f = TransactionFilter { category_id: Some(1), ..all() };
    assert_eq!(ids(&get_transactions_filtered(&ledger, &f)), vec![2]);
    let f = TransactionFilter { category_id: Some(1), include_subcategories: Some(true), ..all() };
    assert_eq!(ids(&get_transactions_filtered(&ledger, &f)), vec![2, 1]);
    let f = TransactionFilter { search_query: Some("MILK".to_string()), ..all() };
    assert_eq!(ids(&get_transactions_filtered(&ledger, &f)), vec![1]);
    let f = TransactionFilter { search_query: Some("c".to_string()), ..all() };
    assert_eq!(ids(&get_transactions_filtered(&ledger, &f)), vec![4, 2]);
    let f = TransactionFilter { search_query: Some("0.5".to_string()), ..all() };
    assert_eq!(ids(&get_transactions_filtered(&ledger, &f)), vec![4]);
    assert_eq!(ids(&get_transactions(&ledger)), vec![5, 4, 3, 2, 1]);
    assert_eq!(ids(&search_transactions(&ledger, "LUNCH")), vec![2]);
    assert_eq!(ids(&search_transactions(&ledger, "0.75")), vec![5]);
    assert_eq!(ids(&search_transactions(&ledger, ".0")), vec![3, 2, 1]);
    assert_eq!(ids(&search_transactions(&ledger, "")), vec![5, 4, 3, 2, 1]);
    assert_eq!(ids(&search_transactions(&ledger, "nothing")), Vec::<i64>::new());
    assert_eq!(search_transactions(&ledger, "lunch")[0].memo.as_deref(), Some("lunch"));
    assert_eq!(ids(&get_account_transactions(&ledger, 2, Scope::All)), vec![5, 4]);
    assert_eq!(ids(&get_account_transactions_by_date(&ledger, 2, Scope::All)), vec![4, 5]);
    assert_eq!(ids(&get_account_transactions(&ledger, 1, Scope::Month(2025, 1))), vec![2, 1]);
}

fn backup() -> BackupData {
    let account = |id, kind, name: &str, initial| BackupAccount {
        id,
        group_id: 1,
        account_type: kind,
        name: name.to_string(),
        initial_balance: initial,
        currency: CurrencyCode { a: b'U', b: b'S', c: b'D' },
    };
    let category = |id, parent, name: &str| BackupCategory {
        id,
        parent_id: parent,
        name: name.to_string(),
        category_type: CategoryType::Expense,
    };
    let transaction = |kind, amount, from, to, category| BackupTransaction {
        date: d(2025, 1, 5),
        transaction_type: kind,
        amount,
        account_id: from,
        to_account_id: to,
        category_id: category,
        memo: Some("restored".to_string()),
        photo_path: None,
    };
    BackupData {
        accounts: vec![
            account(10, AccountType::Asset, "Bank", 5_000),
            account(20, AccountType::Liability, "Card", 0),
        ],
        categories: vec![
            category(7, Some(9), "Groceries"),
            category(9, None, "Food"),
            category(3, None, "Travel"),
        ],
        transactions: vec![
            transaction(TransactionType::Expense, 300, 10, None, Some(7)),
            transaction(TransactionType::Transfer, 1_000, 10, Some(20), None),
            transaction(TransactionType::Income, 50, 20, None, Some(3)),
        ],
        budgets: vec![BackupBudget {
            category_id: 9,
            amount: 2_000,
            period: BudgetPeriod::Monthly,
            start_date: d(2025, 1, 1),
        }],
    }
}

#[test]
fn backup_is_replayed_through_the_poster() {
    let (ledger, budgets, result) = restore_from_backup(backup()).unwrap();
    assert!(result.success);
    assert_eq!(
        (
            result.accounts_restored,
            result.categories_restored,
            result.transactions_restored,
            result.budgets_restored
        ),
        (2, 3, 3, 1)
    );
    let name_of = |id: i64| {
        ledger.accounts().iter().find(|a| a.id == id).map(|a| a.name.clone()).unwrap()
    };
    assert_eq!(name_of(1), "Bank");
    assert_eq!(name_of(2), "Card");
    let category = |id: i64| ledger.categories().iter().find(|c| c.id == id).unwrap();
    assert_eq!(category(1).name, "Food");
    assert_eq!(category(2).name, "Travel");
    assert_eq!(category(3).name, "Groceries");
    assert_eq!(category(3).parent_id, Some(1));
    let posted = |id: i64| ledger.postings().iter().find(|p| p.transaction.id == id).unwrap();
    assert_eq!(posted(1).transaction.account_id, 1);
    assert_eq!(posted(1).transaction.category_id, Some(3));
    assert_eq!(posted(1).entries.len(), 1);
    assert_eq!(posted(1).entries[0].credit, 300);
    assert_eq!(posted(2).transaction.to_account_id, Some(2));
    assert_eq!(posted(2).entries.len(), 2);
    assert_eq!(posted(2).entries[1].account_id, 2);
    assert_eq!(posted(2).entries[1].debit, 1_000);
    assert_eq!(posted(3).transaction.category_id, Some(2));
    assert_eq!(posted(3).transaction.memo.as_deref(), Some("restored"));
    assert_eq!(balance_as_of(&ledger, 1, None), Ok(3_700));
    assert_eq!(balance_as_of(&ledger, 2, None), Ok(1_050));
    assert_eq!(budgets.get_budgets().len(), 1);
    assert_eq!(budgets.get_budgets()[0].category_id, 1);
    assert_eq!(budgets.get_budgets()[0].amount, 2_000);
}

#[test]
fn backup_that_names_an_unknown_account_is_refused() {
    let mut data = backup();
    data.transactions[0].account_id = 99;
    assert_eq!(restore_from_backup(data).err(), Some(EngineError::AccountNotFound));
    let mut data = backup();
    data.transactions[1].amount = 0;
    assert_eq!(restore_from_backup(data).err(), Some(EngineError::NonPositiveAmount));
}

#[test]
fn clearing_empties_the_ledger() {
    let (mut ledger, mut budgets, _) = restore_from_backup(backup()).unwrap();
    let cleared = clear_all_data(&mut ledger, &mut budgets);
    assert!(cleared.success);
    assert_eq!(
        (
            cleared.accounts_deleted,
            cleared.categories_deleted,
            cleared.transactions_deleted,
            cleared.budgets_deleted
        ),
        (2, 3, 3, 1)
    );
    assert_eq!(ledger.accounts().len(), 0);
    assert_eq!(ledger.postings().len(), 0);
    assert_eq!(budgets.get_budgets().len(), 0);
    let fresh = BudgetBook::new();
    assert_eq!(fresh.get_budgets().len(), 0);
}

#[test]
fn refusals_are_told_in_words() {
    assert_eq!(EngineError::AccountInUse.message(), "Cannot delete account with existing transactions");
    assert_eq!(EngineError::CategoryInUse.message(), "Cannot delete category with existing transactions");
    assert_eq!(EngineError::CategoryHasChildren.message(), "Cannot delete category with subcategories");
    assert_eq!(EngineError::NonPositiveAmount.message(), "Amount must be greater than zero");
    assert_eq!(EngineError::SelfTransfer.message(), "Cannot transfer to the same account");
    assert_eq!(EngineError::DuplicateStatement.message(), "Statement already exists for this billing cycle");
}

#[test]
fn exports_can_be_narrowed_down() {
    let mut ledger = ledger();
    create_transaction(&mut ledger, transaction("EXPENSE", "2025-01-05", 100, Some(2), None)).unwrap();
    create_transaction(&mut ledger, transaction("INCOME", "2025-02-01", 900, Some(3), None)).unwrap();
    let mut transfer = transaction("TRANSFER", "2025-02-03", 50, None, None);
    transfer.to_account_id = Some(2);
    create_transaction(&mut ledger, transfer).unwrap();
    assert_eq!(ids(&get_export_transactions(&ledger, None)), vec![3, 2, 1]);
    let all = ExportFilter {
        start_date: None,
        end_date: None,
        transaction_type: None,
        account_id: None,
        category_id: None,
    };
    assert_eq!(ids(&get_export_transactions(&ledger, Some(all))), vec![3, 2, 1]);
    let f = ExportFilter { start_date: Some(d(2025, 2, 1)), ..all };
    assert_eq!(ids(&get_export_transactions(&ledger, Some(f))), vec![3, 2]);
    let f = ExportFilter { account_id: Some(2), ..all };
    assert_eq!(ids(&get_export_transactions(&ledger, Some(f))), vec![3]);
    let f = ExportFilter { category_id: Some(3), end_date: Some(d(2025, 2, 1)), ..all };
    assert_eq!(ids(&get_export_transactions(&ledger, Some(f))), vec![2]);
    let f = ExportFilter { transaction_type: Some(TransactionType::Transfer), ..all };
    assert_eq!(ids(&get_export_transactions(&ledger, Some(f))), vec![3]);
}
