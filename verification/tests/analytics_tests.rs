use money_manager::analytics::{
    change_between, flows_of, get_account_balance_history, get_income_expense_summary,
    get_net_worth_history, get_year_over_year_comparison, AccountBalancePoint,
};
use money_manager::balance::{get_accounts_with_balance, Scope};
use money_manager::date::Date;
use money_manager::ledger::{Ledger, NewAccount, TransactionDraft};
use money_manager::model::{
    AccountType, Category, CategoryType, CurrencyCode, EngineError, TransactionType,
};
use money_manager::reports::{
    get_analytics_dashboard, get_category_spending, get_daily_summary,
    get_subcategory_breakdown, get_top_categories, sort_by_amount, CategoryTotal,
};

fn d(year: i32, month: u32, day: u32) -> Date {
    Date { year, month, day }
}

/// Accounts: 1 cash (asset, 1000.00), 2 card (liability). Categories: 1
/// food, 2 groceries under food, 3 dining under food, 4 travel, 5 salary.
fn ledger() -> Ledger {
    let mut ledger = Ledger::new();
    let account = |kind, initial| NewAccount {
        group_id: 1,
        account_type: kind,
        name: "account".to_string(),
        initial_balance: initial,
        currency: CurrencyCode { a: b'L', b: b'K', c: b'R' },
    };
    ledger.restore_account(1, account(AccountType::Asset, 100_000)).unwrap();
    ledger.restore_account(2, account(AccountType::Liability, 0)).unwrap();
    let category = |id, parent, kind| Category {
        id,
        parent_id: parent,
        name: format!("category {}", id),
        category_type: kind,
    };
    ledger.restore_category(category(1, None, CategoryType::Expense)).unwrap();
    ledger.restore_category(category(2, Some(1), CategoryType::Expense)).unwrap();
    ledger.restore_category(category(3, Some(1), CategoryType::Expense)).unwrap();
    ledger.restore_category(category(4, None, CategoryType::Expense)).unwrap();
    ledger.restore_category(category(5, None, CategoryType::Income)).unwrap();
    ledger
}

fn post(
    ledger: &mut Ledger,
    kind: TransactionType,
    date: Date,
    amount: i64,
    account: i64,
    to: Option<i64>,
    category: Option<i64>,
) {
    ledger
        .post(TransactionDraft {
            date,
            transaction_type: kind,
            amount,
            account_id: account,
            to_account_id: to,
            category_id: category,
            memo: None,
            photo_path: None,
            auto_settlement: false,
        })
        .unwrap();
}

fn busy() -> Ledger {
    let mut l = ledger();
    post(&mut l, TransactionType::Income, d(2025, 2, 27), 5_000, 1, None, Some(5));
    post(&mut l, TransactionType::Income, d(2025, 3, 1), 20_000, 1, None, Some(5));
    post(&mut l, TransactionType::Expense, d(2025, 3, 3), 7_000, 1, None, Some(2));
    post(&mut l, TransactionType::Expense, d(2025, 3, 3), 1_000, 1, None, Some(3));
    post(&mut l, TransactionType::Expense, d(2025, 3, 8), 500, 1, None, Some(1));
    post(&mut l, TransactionType::Expense, d(2025, 3, 9), 9_000, 1, None, Some(4));
    post(&mut l, TransactionType::Transfer, d(2025, 3, 10), 2_000, 1, Some(2), None);
    post(&mut l, TransactionType::Expense, d(2025, 3, 12), 3_000, 2, None, Some(4));
    post(&mut l, TransactionType::Expense, d(2025, 4, 2), 250, 1, None, None);
    l
}

#[test]
fn performance_walks_every_day_of_the_range() {
    let ledger = busy();
    let p = get_account_balance_history(&ledger, 1, d(2025, 3, 1), d(2025, 3, 10)).unwrap();
    assert_eq!(p.account_id, 1);
    assert_eq!(p.account_type, AccountType::Asset);
    assert_eq!(p.opening_balance, 105_000);
    assert_eq!(p.closing_balance, 105_500);
    assert_eq!(p.current_balance, 105_250);
    assert_eq!(p.highest_balance, 125_000);
    assert_eq!(p.lowest_balance, 105_000);
    // 125000 x2, 117000 x5, 116500, 107500, 105500
    assert_eq!(p.average_daily_balance, 116_450);
    assert_eq!(p.total_inflow, 20_000);
    assert_eq!(p.total_outflow, 19_500);
    assert_eq!(p.net_change, 500);
    assert_eq!(p.transaction_count, 6);
    assert_eq!(
        p.balance_history,
        vec![
            AccountBalancePoint { date: d(2025, 3, 1), balance: 105_000 },
            AccountBalancePoint { date: d(2025, 3, 1), balance: 125_000 },
            AccountBalancePoint { date: d(2025, 3, 8), balance: 116_500 },
            AccountBalancePoint { date: d(2025, 3, 10), balance: 105_500 },
        ]
    );
}

#[test]
fn performance_of_one_day_and_of_no_day() {
    let ledger = busy();
    let one = get_account_balance_history(&ledger, 1, d(2025, 3, 3), d(2025, 3, 3)).unwrap();
    assert_eq!(one.opening_balance, 125_000);
    assert_eq!(one.highest_balance, 125_000);
    assert_eq!(one.lowest_balance, 117_000);
    assert_eq!(one.average_daily_balance, 117_000);
    assert_eq!(one.balance_history.len(), 2);
    let none = get_account_balance_history(&ledger, 1, d(2025, 3, 3), d(2025, 3, 2)).unwrap();
    assert_eq!(none.average_daily_balance, 125_000);
    assert_eq!(none.highest_balance, 125_000);
    assert_eq!(none.lowest_balance, 125_000);
    assert_eq!(none.balance_history.len(), 1);
    assert_eq!(none.transaction_count, 0);
    assert_eq!(
        get_account_balance_history(&ledger, 9, d(2025, 3, 3), d(2025, 3, 2)).err(),
        Some(EngineError::AccountNotFound)
    );
}

#[test]
fn flows_count_debits_and_credits_of_the_account() {
    let ledger = busy();
    assert_eq!(flows_of(&ledger, 2, Scope::All), (2_000, 3_000, 2));
    assert_eq!(flows_of(&ledger, 1, Scope::Month(2025, 2)), (5_000, 0, 1));
    assert_eq!(flows_of(&ledger, 1, Scope::Before(d(2025, 2, 27))), (0, 0, 0));
}

#[test]
fn accounts_are_listed_with_their_balances() {
    let rows = get_accounts_with_balance(&busy());
    assert_eq!(rows.len(), 2);
    assert_eq!((rows[0].account_id, rows[0].current_balance), (1, 105_250));
    assert_eq!((rows[1].account_id, rows[1].current_balance), (2, -1_000));
}

#[test]
fn income_and_expense_are_summed_over_a_range() {
    let s = get_income_expense_summary(&busy(), d(2025, 3, 1), d(2025, 3, 31));
    assert_eq!(s.total_income, 20_000);
    assert_eq!(s.total_expense, 20_500);
    assert_eq!(s.net_savings, -500);
    assert_eq!(s.transaction_count, 7);
    assert_eq!(s.start_date, d(2025, 3, 1));
    assert_eq!(s.end_date, d(2025, 3, 31));
}

#[test]
fn year_over_year_compares_month_by_month() {
    let mut ledger = busy();
    post(&mut ledger, TransactionType::Income, d(2024, 3, 5), 10_000, 1, None, None);
    post(&mut ledger, TransactionType::Expense, d(2024, 4, 5), 1_000, 1, None, None);
    let rows = get_year_over_year_comparison(&ledger, 2025);
    assert_eq!(rows.len(), 12);
    for (i, row) in rows.iter().enumerate() {
        assert_eq!(row.month_num, i as u32 + 1);
    }
    let march = rows[2];
    assert_eq!(march.current_year_income, 20_000);
    assert_eq!(march.previous_year_income, 10_000);
    assert_eq!(march.income_change, 10_000);
    assert_eq!(march.current_year_expense, 20_500);
    assert_eq!(march.previous_year_expense, 0);
    assert_eq!(march.expense_change, 10_000);
    let april = rows[3];
    assert_eq!(april.current_year_expense, 250);
    assert_eq!(april.previous_year_expense, 1_000);
    assert_eq!(april.expense_change, -7_500);
    assert_eq!(rows[0].income_change, 0);
}

#[test]
fn change_between_periods() {
    assert_eq!(change_between(150, 100), 5_000);
    assert_eq!(change_between(50, 100), -5_000);
    assert_eq!(change_between(100, 300), -6_667);
    assert_eq!(change_between(5, 0), 10_000);
    assert_eq!(change_between(0, 0), 0);
}

#[test]
fn net_worth_history_shows_month_ends_and_today() {
    let ledger = busy();
    let rows = get_net_worth_history(&ledger, Some(3), d(2025, 3, 11));
    assert_eq!(rows.len(), 3);
    assert_eq!(rows[0].date, d(2025, 1, 31));
    assert_eq!(rows[0].net_worth, 100_000);
    assert_eq!((rows[0].growth, rows[0].growth_percentage), (0, 0));
    assert_eq!(rows[1].date, d(2025, 2, 28));
    assert_eq!(rows[1].net_worth, 105_000);
    assert_eq!((rows[1].growth, rows[1].growth_percentage), (5_000, 500));
    assert_eq!(rows[2].date, d(2025, 3, 11));
    assert_eq!(rows[2].total_assets, 105_500);
    assert_eq!(rows[2].total_liabilities, 0);
    assert_eq!(rows[2].growth, 500);
    assert_eq!(rows[2].growth_percentage, 48);
    assert_eq!(get_net_worth_history(&ledger, None, d(2025, 3, 11)).len(), 12);
    assert_eq!(get_net_worth_history(&ledger, Some(0), d(2025, 3, 11)).len(), 0);
    assert_eq!(get_net_worth_history(&ledger, Some(-4), d(2025, 3, 11)).len(), 0);
    let across = get_net_worth_history(&ledger, Some(15), d(2025, 3, 11));
    assert_eq!(across[0].date, d(2024, 1, 31));
    assert_eq!(across[1].date, d(2024, 2, 29));
    assert_eq!(across[11].date, d(2024, 12, 31));
}

#[test]
fn spending_counts_under_the_parent_category() {
    let rows = get_category_spending(&busy(), d(2025, 3, 1), d(2025, 3, 31), TransactionType::Expense);
    assert_eq!(rows.len(), 2);
    assert_eq!(rows[0].category_id, 4);
    assert_eq!(rows[0].total_amount, 12_000);
    assert_eq!(rows[0].transaction_count, 2);
    assert_eq!(rows[0].percentage, 5_854);
    assert_eq!(rows[1].category_id, 1);
    assert_eq!(rows[1].total_amount, 8_500);
    assert_eq!(rows[1].transaction_count, 3);
    assert_eq!(rows[1].percentage, 4_146);
    let income = get_category_spending(&busy(), d(2025, 1, 1), d(2025, 12, 31), TransactionType::Income);
    assert_eq!(income.len(), 1);
    assert_eq!((income[0].category_id, income[0].total_amount, income[0].percentage), (5, 25_000, 10_000));
}

#[test]
fn rows_are_sorted_with_the_largest_first() {
    let row = |id, amount| CategoryTotal { category_id: id, total_amount: amount, transaction_count: 1 };
    let sorted = sort_by_amount(&vec![row(1, 5), row(2, 9), row(3, 5), row(4, 1), row(5, 9)]);
    let ids: Vec<i64> = sorted.iter().map(|r| r.category_id).collect();
    assert_eq!(ids, vec![2, 5, 1, 3, 4]);
    assert_eq!(sort_by_amount(&Vec::new()).len(), 0);
}

#[test]
fn top_categories_are_compared_with_the_period_before() {
    let mut ledger = busy();
    post(&mut ledger, TransactionType::Expense, d(2025, 2, 20), 4_000, 1, None, Some(2));
    let rows =
        get_top_categories(&ledger, d(2025, 3, 1), d(2025, 3, 31), TransactionType::Expense, None)
            .unwrap();
    assert_eq!(rows.len(), 2);
    assert_eq!(rows[0].category_id, 4);
    assert_eq!(rows[0].current_amount, 12_000);
    assert_eq!(rows[0].previous_amount, 0);
    assert_eq!(rows[0].change_percentage, 10_000);
    assert_eq!(rows[0].percentage_of_total, 5_854);
    assert_eq!(rows[1].category_id, 1);
    assert_eq!(rows[1].previous_amount, 4_000);
    assert_eq!(rows[1].change, 4_500);
    assert_eq!(rows[1].change_percentage, 11_250);
    let one =
        get_top_categories(&ledger, d(2025, 3, 1), d(2025, 3, 31), TransactionType::Expense, Some(1))
            .unwrap();
    assert_eq!(one.len(), 1);
    assert_eq!(one[0].percentage_of_total, 10_000);
}

#[test]
fn breakdown_lists_the_children_and_the_parent_itself() {
    let b = get_subcategory_breakdown(
        &busy(),
        1,
        d(2025, 3, 1),
        d(2025, 3, 31),
        TransactionType::Expense,
    )
    .unwrap();
    assert_eq!(b.parent_category_id, 1);
    assert_eq!(b.total_amount, 8_500);
    assert_eq!(b.subcategories.len(), 3);
    assert_eq!((b.subcategories[0].category_id, b.subcategories[0].amount), (2, 7_000));
    assert_eq!(b.subcategories[0].percentage, 8_235);
    assert_eq!((b.subcategories[1].category_id, b.subcategories[1].amount), (3, 1_000));
    assert_eq!((b.subcategories[2].category_id, b.subcategories[2].amount), (1, 500));
    assert_eq!(b.subcategories[2].transaction_count, 1);
    let alone = get_subcategory_breakdown(
        &busy(),
        4,
        d(2025, 3, 1),
        d(2025, 3, 31),
        TransactionType::Expense,
    )
    .unwrap();
    assert_eq!(alone.total_amount, 12_000);
    assert_eq!(alone.subcategories.len(), 0);
    assert_eq!(
        get_subcategory_breakdown(&busy(), 9, d(2025, 3, 1), d(2025, 3, 31), TransactionType::Expense)
            .err(),
        Some(EngineError::CategoryNotFound)
    );
}

#[test]
fn daily_summary_lists_days_with_transactions_latest_first() {
    let rows = get_daily_summary(&busy(), d(2025, 3, 1), d(2025, 3, 9));
    assert_eq!(rows.len(), 4);
    assert_eq!(rows[0].date, d(2025, 3, 9));
    assert_eq!(rows[1].date, d(2025, 3, 8));
    assert_eq!(rows[2].date, d(2025, 3, 3));
    assert_eq!((rows[2].total_expense, rows[2].transaction_count, rows[2].net), (8_000, 2, -8_000));
    assert_eq!(rows[3].date, d(2025, 3, 1));
    assert_eq!(rows[3].total_income, 20_000);
    assert_eq!(get_daily_summary(&busy(), d(2025, 3, 9), d(2025, 3, 1)).len(), 0);
}

#[test]
fn dashboard_shows_the_month_so_far() {
    let dash = get_analytics_dashboard(&busy(), d(2025, 3, 10));
    assert_eq!(dash.net_worth, 104_250);
    assert_eq!(dash.net_worth_change, -750);
    assert_eq!(dash.total_income_this_month, 20_000);
    assert_eq!(dash.total_expense_this_month, 17_500);
    assert_eq!(dash.savings_rate, 1_250);
    assert_eq!(dash.top_expense_category, Some(4));
    assert_eq!(dash.top_expense_amount, 9_000);
    assert_eq!(dash.daily_average_expense, 1_750);
    assert_eq!(dash.days_in_period, 10);
    let empty = get_analytics_dashboard(&ledger(), d(2025, 3, 10));
    assert_eq!(empty.top_expense_category, None);
    assert_eq!(empty.savings_rate, 0);
    assert_eq!(empty.net_worth, 100_000);
}
