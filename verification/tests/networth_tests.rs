use money_manager::date::Date;
use money_manager::ledger::{Ledger, NewAccount, TransactionDraft};
use money_manager::model::{AccountType, CurrencyCode, EngineError, TransactionType};
use money_manager::networth::{
    backfill_net_worth_snapshots, change_percentage, find_earliest_date,
    generate_net_worth_snapshot, get_current_net_worth, NetWorthSnapshot, SnapshotSeries,
};

fn d(year: i32, month: u32, day: u32) -> Date {
    Date { year, month, day }
}

fn ledger() -> Ledger {
    let mut ledger = Ledger::new();
    let account = |kind, initial| NewAccount {
        group_id: 1,
        account_type: kind,
        name: "account".to_string(),
        initial_balance: initial,
        currency: CurrencyCode { a: b'L', b: b'K', c: b'R' },
    };
    ledger.restore_account(1, account(AccountType::Asset, 100_000)).unwrap();
    ledger.restore_account(2, account(AccountType::Liability, 0)).unwrap();
    ledger
}

fn post(ledger: &mut Ledger, kind: TransactionType, date: Date, amount: i64, account: i64) {
    ledger
        .post(TransactionDraft {
            date,
            transaction_type: kind,
            amount,
            account_id: account,
            to_account_id: None,
            category_id: None,
            memo: None,
            photo_path: None,
            auto_settlement: false,
        })
        .unwrap();
}

fn history() -> Ledger {
    let mut ledger = ledger();
    post(&mut ledger, TransactionType::Income, d(2025, 1, 15), 50_000, 1);
    post(&mut ledger, TransactionType::Expense, d(2024, 11, 20), 10_000, 2);
    post(&mut ledger, TransactionType::Expense, d(2025, 2, 28), 5_000, 1);
    post(&mut ledger, TransactionType::Expense, d(2025, 3, 2), 1_000, 1);
    ledger
}

#[test]
fn earliest_date_is_found_whatever_the_order() {
    assert_eq!(find_earliest_date(&ledger()), None);
    assert_eq!(find_earliest_date(&history()), Some(d(2024, 11, 20)));
}

#[test]
fn backfill_writes_one_row_for_every_month_end() {
    let ledger = history();
    let mut series = SnapshotSeries::new();
    assert_eq!(backfill_net_worth_snapshots(&mut series, &ledger, d(2025, 3, 10)), Ok(()));
    let rows = series.snapshots();
    assert_eq!(rows.len(), 4);
    let expected = [
        (d(2024, 11, 30), 100_000, 10_000),
        (d(2024, 12, 31), 100_000, 10_000),
        (d(2025, 1, 31), 150_000, 10_000),
        (d(2025, 2, 28), 145_000, 10_000),
    ];
    for (i, (date, assets, liabilities)) in expected.iter().enumerate() {
        assert_eq!(
            rows[i],
            NetWorthSnapshot {
                id: i as i64 + 1,
                snapshot_date: *date,
                total_assets: *assets,
                total_liabilities: *liabilities,
                net_worth: assets - liabilities,
            }
        );
    }
}

#[test]
fn backfill_twice_writes_no_row_twice() {
    let ledger = history();
    let mut series = SnapshotSeries::new();
    backfill_net_worth_snapshots(&mut series, &ledger, d(2025, 3, 10)).unwrap();
    let first: Vec<NetWorthSnapshot> = series.snapshots().clone();
    backfill_net_worth_snapshots(&mut series, &ledger, d(2025, 3, 10)).unwrap();
    assert_eq!(series.snapshots(), &first);
    backfill_net_worth_snapshots(&mut series, &ledger, d(2026, 1, 1)).unwrap();
    assert_eq!(series.snapshots(), &first);
    for i in 0..first.len() {
        for j in 0..i {
            assert_ne!(first[i].snapshot_date, first[j].snapshot_date);
        }
    }
}

#[test]
fn backfill_leaves_a_series_with_rows_alone() {
    let ledger = history();
    let mut series = SnapshotSeries::new();
    let edited = NetWorthSnapshot {
        id: 7,
        snapshot_date: d(2020, 5, 31),
        total_assets: 1,
        total_liabilities: 2,
        net_worth: -1,
    };
    series.restore_snapshot(edited).unwrap();
    backfill_net_worth_snapshots(&mut series, &ledger, d(2025, 3, 10)).unwrap();
    assert_eq!(series.snapshots(), &vec![edited]);
}

#[test]
fn backfill_of_an_empty_ledger_writes_nothing() {
    let mut series = SnapshotSeries::new();
    backfill_net_worth_snapshots(&mut series, &ledger(), d(2025, 3, 10)).unwrap();
    assert_eq!(series.snapshots().len(), 0);
}

#[test]
fn backfill_leaves_the_month_of_today_out() {
    let ledger = history();
    let mut series = SnapshotSeries::new();
    backfill_net_worth_snapshots(&mut series, &ledger, d(2025, 2, 28)).unwrap();
    let dates: Vec<Date> = series.snapshots().iter().map(|s| s.snapshot_date).collect();
    assert_eq!(dates, vec![d(2024, 11, 30), d(2024, 12, 31), d(2025, 1, 31)]);
    let mut before = SnapshotSeries::new();
    backfill_net_worth_snapshots(&mut before, &ledger, d(2025, 2, 27)).unwrap();
    assert_eq!(before.snapshots().len(), 3);
    let mut next = SnapshotSeries::new();
    backfill_net_worth_snapshots(&mut next, &ledger, d(2025, 3, 1)).unwrap();
    assert_eq!(next.snapshots().len(), 4);
    let mut same_month = SnapshotSeries::new();
    backfill_net_worth_snapshots(&mut same_month, &ledger, d(2024, 11, 30)).unwrap();
    assert_eq!(same_month.snapshots().len(), 0);
    let mut early = SnapshotSeries::new();
    backfill_net_worth_snapshots(&mut early, &ledger, d(2024, 10, 1)).unwrap();
    assert_eq!(early.snapshots().len(), 0);
}

#[test]
fn backfill_of_one_month_writes_one_row() {
    let mut ledger = ledger();
    post(&mut ledger, TransactionType::Income, d(2025, 1, 15), 5, 1);
    let mut series = SnapshotSeries::new();
    backfill_net_worth_snapshots(&mut series, &ledger, d(2025, 2, 28)).unwrap();
    let rows = series.snapshots();
    assert_eq!(rows.len(), 1);
    assert_eq!(rows[0].snapshot_date, d(2025, 1, 31));
    assert_eq!(rows[0].net_worth, rows[0].total_assets - rows[0].total_liabilities);
}

#[test]
fn snapshot_of_the_month_is_written_once_and_kept_up_to_date() {
    let mut ledger = history();
    let mut series = SnapshotSeries::new();
    generate_net_worth_snapshot(&mut series, &ledger, d(2025, 3, 10)).unwrap();
    assert_eq!(series.snapshots().len(), 1);
    assert_eq!(
        series.snapshots()[0],
        NetWorthSnapshot {
            id: 1,
            snapshot_date: d(2025, 3, 31),
            total_assets: 144_000,
            total_liabilities: 10_000,
            net_worth: 134_000,
        }
    );
    post(&mut ledger, TransactionType::Income, d(2025, 3, 12), 6_000, 1);
    generate_net_worth_snapshot(&mut series, &ledger, d(2025, 3, 20)).unwrap();
    assert_eq!(series.snapshots().len(), 1);
    assert_eq!(series.snapshots()[0].id, 1);
    assert_eq!(series.snapshots()[0].total_assets, 150_000);
    assert_eq!(series.snapshots()[0].net_worth, 140_000);
    generate_net_worth_snapshot(&mut series, &ledger, d(2025, 2, 1)).unwrap();
    assert_eq!(series.snapshots().len(), 2);
    assert_eq!(series.snapshots()[0].snapshot_date, d(2025, 2, 28));
    assert_eq!(series.snapshots()[0].id, 2);
    assert_eq!(series.snapshots()[1].snapshot_date, d(2025, 3, 31));
}

#[test]
fn most_recent_snapshots_are_shown_oldest_first() {
    let ledger = history();
    let mut series = SnapshotSeries::new();
    backfill_net_worth_snapshots(&mut series, &ledger, d(2025, 3, 10)).unwrap();
    let two = series.get_net_worth_snapshots(Some(2));
    assert_eq!(two.len(), 2);
    assert_eq!(two[0].snapshot_date, d(2025, 1, 31));
    assert_eq!(two[1].snapshot_date, d(2025, 2, 28));
    assert_eq!(series.get_net_worth_snapshots(None).len(), 4);
    assert_eq!(series.get_net_worth_snapshots(Some(0)).len(), 0);
    assert_eq!(series.get_net_worth_snapshots(Some(-1)).len(), 4);
    assert_eq!(series.get_net_worth_snapshots(Some(99)).len(), 4);
}

#[test]
fn current_net_worth_compares_with_the_end_of_last_month() {
    let ledger = history();
    let s = get_current_net_worth(&ledger, d(2025, 3, 10)).unwrap();
    assert_eq!(s.assets, 144_000);
    assert_eq!(s.liabilities, 10_000);
    assert_eq!(s.net_worth, 134_000);
    assert_eq!(s.change_amount, -1_000);
    assert_eq!(s.change_percentage, -74);
    assert_eq!(
        get_current_net_worth(&ledger, d(-262143, 1, 5)),
        Err(EngineError::DateOutOfRange)
    );
}

#[test]
fn change_percentage_is_taken_of_the_magnitude() {
    assert_eq!(change_percentage(50, 200), 2_500);
    assert_eq!(change_percentage(50, -200), 2_500);
    assert_eq!(change_percentage(-50, -200), -2_500);
    assert_eq!(change_percentage(50, 1), 0);
    assert_eq!(change_percentage(50, 0), 0);
    assert_eq!(change_percentage(1, 3), 3_333);
    assert_eq!(change_percentage(2, 3), 6_667);
}
