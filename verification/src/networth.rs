//! Net worth: assets less liabilities, now and at the month ends of the
//! past, kept as a series of snapshots with one row for a date.

use crate::balance::{
    calc_net_worth_at, total_assets, total_liabilities, Scope, TOTAL_LIMIT,
};
use crate::date::{
    date_lt, last_day_of_month, month_end_spec, pred_spec, Date, MAX_YEAR,
    MIN_YEAR,
};
use crate::ledger::{posting_ok, Ledger, LedgerView};
use crate::model::{EngineError, PostedTransaction, MAX_ID, MAX_ROWS};
use crate::money::{abs, div_round, round_div};
use vstd::prelude::*;

verus! {

/// Net worth on a day, and how it changed since the end of the month
/// before. The percentage is in hundredths of a percent.
#[derive(Clone, Copy, Debug, PartialEq, Eq, Structural)]
pub struct NetWorthSummary {
    pub assets: i128,
    pub liabilities: i128,
    pub net_worth: i128,
    pub change_amount: i128,
    pub change_percentage: i128,
}

/// Net worth at the end of a month.
#[derive(Clone, Copy, Debug, PartialEq, Eq, Structural)]
pub struct NetWorthSnapshot {
    pub id: i64,
    pub snapshot_date: Date,
    pub total_assets: i128,
    pub total_liabilities: i128,
    pub net_worth: i128,
}

/// The last day of the month before the month of `today`.
pub open spec fn previous_month_end(today: Date) -> Option<Date> {
    pred_spec(Date { year: today.year, month: today.month, day: 1 })
}

/// A change as a share of what it started from, in hundredths of a
/// percent; zero where it started from less than two minor units.
pub open spec fn change_percentage_spec(change: int, from: int) -> int {
    if abs(from) > 1 {
        div_round(change * 10000, abs(from))
    } else {
        0
    }
}

/// Net worth over the whole journal, and its change since the last day
/// of the month before `today`.
pub open spec fn net_worth_summary(v: LedgerView, today: Date) -> Result<
    NetWorthSummary,
    EngineError,
> {
    match previous_month_end(today) {
        None => Err(EngineError::DateOutOfRange),
        Some(before) => {
            let assets = total_assets(v, Scope::All);
            let liabilities = total_liabilities(v, Scope::All);
            let worth = assets - liabilities;
            let earlier = total_assets(v, Scope::UpTo(before)) - total_liabilities(
                v,
                Scope::UpTo(before),
            );
            Ok(
                NetWorthSummary {
                    assets: assets as i128,
                    liabilities: liabilities as i128,
                    net_worth: worth as i128,
                    change_amount: (worth - earlier) as i128,
                    change_percentage: change_percentage_spec(worth - earlier, earlier) as i128,
                },
            )
        },
    }
}

/// A change as a share of what it started from, in hundredths of a
/// percent.
pub fn change_percentage(change: i128, from: i128) -> (r: i128)
    requires
        -4 * TOTAL_LIMIT <= change <= 4 * TOTAL_LIMIT,
        -2 * TOTAL_LIMIT <= from <= 2 * TOTAL_LIMIT,
    ensures
        r == change_percentage_spec(change as int, from as int),
{
    let magnitude = if from < 0 {
        -from
    } else {
        from
    };
    if magnitude > 1 {
        round_div(change * 10000, magnitude)
    } else {
        0
    }
}

/// Net worth over the whole journal, with its change since the end of
/// the month before `today`.
pub fn get_current_net_worth(ledger: &Ledger, today: Date) -> (r: Result<
    NetWorthSummary,
    EngineError,
>)
    requires
        ledger.wf(),
        today.valid(),
    ensures
        r == net_worth_summary(ledger@, today),
{
    let (assets, liabilities) = calc_net_worth_at(ledger, None);
    let worth = assets - liabilities;
    let first_of_month = Date { year: today.year, month: today.month, day: 1 };
    let before = match first_of_month.pred() {
        Some(d) => d,
        None => {
            return Err(EngineError::DateOutOfRange);
        },
    };
    let (earlier_assets, earlier_liabilities) = calc_net_worth_at(ledger, Some(before));
    let earlier = earlier_assets - earlier_liabilities;
    let change = worth - earlier;
    Ok(
        NetWorthSummary {
            assets,
            liabilities,
            net_worth: worth,
            change_amount: change,
            change_percentage: change_percentage(change, earlier),
        },
    )
}

/// The series of snapshots as a mathematical value.
pub struct SnapshotSeriesView {
    pub snapshots: Seq<NetWorthSnapshot>,
    pub next_id: int,
}

/// The snapshots are in the order of their dates, each date once.
pub open spec fn in_date_order(s: Seq<NetWorthSnapshot>) -> bool {
    forall|i: int, j: int|
        0 <= i < j < s.len() ==> date_lt(
            (#[trigger] s[i]).snapshot_date,
            (#[trigger] s[j]).snapshot_date,
        )
}

pub open spec fn has_snapshot_id(s: Seq<NetWorthSnapshot>, id: int) -> bool {
    exists|i: int| 0 <= i < s.len() && (#[trigger] s[i]).id == id
}

pub open spec fn date_stored(s: Seq<NetWorthSnapshot>, date: Date) -> bool {
    exists|i: int| 0 <= i < s.len() && (#[trigger] s[i]).snapshot_date == date
}

impl SnapshotSeriesView {
    pub open spec fn wf(self) -> bool {
        &&& self.snapshots.len() <= MAX_ROWS
        &&& 1 <= self.next_id <= MAX_ID + 1
        &&& forall|i: int|
            0 <= i < self.snapshots.len() ==> 1 <= (#[trigger] self.snapshots[i]).id
                < self.next_id
        &&& forall|i: int, j: int|
            0 <= i < j < self.snapshots.len() ==> (#[trigger] self.snapshots[i]).id != (
            #[trigger] self.snapshots[j]).id
        &&& in_date_order(self.snapshots)
    }
}

/// The snapshot of a date with the totals of the ledger up to that date.
pub open spec fn snapshot_of(v: LedgerView, id: int, date: Date, scope: Scope)
    -> NetWorthSnapshot {
    NetWorthSnapshot {
        id: id as i64,
        snapshot_date: date,
        total_assets: total_assets(v, scope) as i128,
        total_liabilities: total_liabilities(v, scope) as i128,
        net_worth: (total_assets(v, scope) - total_liabilities(v, scope)) as i128,
    }
}

/// `after` holds the row `row` for its date and, for every other date,
/// what `before` held.
pub open spec fn row_put(
    before: Seq<NetWorthSnapshot>,
    after: Seq<NetWorthSnapshot>,
    row: NetWorthSnapshot,
) -> bool {
    &&& after.contains(row)
    &&& forall|x: NetWorthSnapshot| #[trigger]
        after.contains(x) ==> x == row || (before.contains(x) && x.snapshot_date
            != row.snapshot_date)
    &&& forall|x: NetWorthSnapshot| #[trigger]
        before.contains(x) && x.snapshot_date != row.snapshot_date ==> after.contains(x)
}

/// The identifier of the row that is stored for a date.
pub open spec fn stored_id(s: Seq<NetWorthSnapshot>, date: Date) -> i64 {
    s[choose|i: int| 0 <= i < s.len() && (#[trigger] s[i]).snapshot_date == date].id
}

/// The earliest date of a transaction; of none where there is none.
pub open spec fn earliest_date(postings: Seq<PostedTransaction>) -> Option<Date>
    decreases postings.len(),
{
    if postings.len() == 0 {
        None
    } else {
        let front = earliest_date(postings.drop_last());
        let d = postings.last().transaction.date;
        if front is None || date_lt(d, front.unwrap()) {
            Some(d)
        } else {
            front
        }
    }
}

/// The running number of a month.
pub open spec fn month_index(year: int, month: int) -> int {
    year * 12 + month - 1
}

/// The months from the month of `start` up to the month of `today`, the
/// month of `today` itself left out, counted.
pub open spec fn completed_months(start: Date, today: Date) -> int {
    let through = month_index(today.year as int, today.month as int) - month_index(
        start.year as int,
        start.month as int,
    );
    if through > 0 {
        through
    } else {
        0
    }
}

/// The last day of the month that lies `n` months after the month of
/// `start`.
pub open spec fn nth_month_end(start: Date, n: int) -> Date {
    let index = month_index(start.year as int, start.month as int) + n;
    month_end_spec(index / 12, index % 12 + 1)
}

/// The snapshots of `count` month ends from the month of `start` on, each
/// with the totals of the ledger up to its date.
pub open spec fn backfill_rows(v: LedgerView, start: Date, first_id: int, count: int) -> Seq<
    NetWorthSnapshot,
>
    decreases count,
{
    if count <= 0 {
        Seq::empty()
    } else {
        let date = nth_month_end(start, count - 1);
        backfill_rows(v, start, first_id, count - 1).push(
            snapshot_of(v, first_id + count - 1, date, Scope::UpTo(date)),
        )
    }
}

/// The earliest date of a journal is the date of one of its transactions,
/// and so a day of the calendar in a well-formed ledger.
pub proof fn lemma_earliest_is_posted(postings: Seq<PostedTransaction>)
    ensures
        match earliest_date(postings) {
            Some(d) => exists|k: int|
                0 <= k < postings.len() && (#[trigger] postings[k]).transaction.date == d,
            None => postings.len() == 0,
        },
    decreases postings.len(),
{
    if postings.len() > 0 {
        let front = postings.drop_last();
        lemma_earliest_is_posted(front);
        let last = postings.len() - 1;
        assert(postings[last] == postings.last());
        match earliest_date(front) {
            Some(d) => {
                let k = choose|k: int|
                    0 <= k < front.len() && (#[trigger] front[k]).transaction.date == d;
                assert(postings[k] == front[k]);
            },
            None => {},
        }
    }
}

/// The earliest date of a well-formed ledger with a transaction is a day
/// of the calendar.
pub proof fn lemma_earliest_valid(v: LedgerView)
    requires
        v.wf(),
        earliest_date(v.postings) is Some,
    ensures
        earliest_date(v.postings).unwrap().valid(),
{
    lemma_earliest_is_posted(v.postings);
    let d = earliest_date(v.postings).unwrap();
    let k = choose|k: int|
        0 <= k < v.postings.len() && (#[trigger] v.postings[k]).transaction.date == d;
    assert(posting_ok(v.postings[k]));
}

/// What backfilling makes of a series: a series that holds a snapshot
/// stays as it is; an empty one receives a snapshot for the end of every
/// month from the month of the earliest transaction up to the month of
/// `today`, the month of `today` itself left out.
pub open spec fn backfill_result(s: SnapshotSeriesView, v: LedgerView, today: Date) -> Result<
    SnapshotSeriesView,
    EngineError,
> {
    if s.snapshots.len() > 0 {
        Ok(s)
    } else {
        match earliest_date(v.postings) {
            None => Ok(s),
            Some(start) => {
                let count = completed_months(start, today);
                if s.next_id + count > MAX_ID + 1 {
                    Err(EngineError::CapacityExceeded)
                } else {
                    Ok(
                        SnapshotSeriesView {
                            snapshots: backfill_rows(v, start, s.next_id, count),
                            next_id: s.next_id + count,
                        },
                    )
                }
            },
        }
    }
}

/// The month that lies `n` months after the month of a valid date, where
/// it lies before the month of another valid date, is a month of the
/// calendar.
pub proof fn lemma_nth_month(start: Date, today: Date, n: int)
    requires
        start.valid(),
        today.valid(),
        0 <= n < completed_months(start, today),
    ensures
        ({
            let index = month_index(start.year as int, start.month as int) + n;
            &&& MIN_YEAR <= index / 12 <= MAX_YEAR
            &&& 1 <= index % 12 + 1 <= 12
            &&& index <= month_index(today.year as int, today.month as int)
            &&& nth_month_end(start, n).valid()
            &&& nth_month_end(start, n).year == index / 12
            &&& nth_month_end(start, n).month == index % 12 + 1
        }),
{
}

/// The rows that backfilling writes: as many as months, with identifiers
/// that count up, and in the order of their dates.
pub proof fn lemma_backfill_rows(
    v: LedgerView,
    start: Date,
    today: Date,
    first_id: int,
    count: int,
)
    requires
        start.valid(),
        today.valid(),
        0 <= count <= completed_months(start, today),
        1 <= first_id,
        first_id + count <= MAX_ID + 1,
    ensures
        backfill_rows(v, start, first_id, count).len() == count,
        forall|i: int|
            0 <= i < count ==> (#[trigger] backfill_rows(v, start, first_id, count)[i]).id
                == first_id + i && backfill_rows(v, start, first_id, count)[i].snapshot_date
                == nth_month_end(start, i),
        in_date_order(backfill_rows(v, start, first_id, count)),
    decreases count,
{
    if count > 0 {
        lemma_backfill_rows(v, start, today, first_id, count - 1);
        let front = backfill_rows(v, start, first_id, count - 1);
        let rows = backfill_rows(v, start, first_id, count);
        assert forall|i: int| 0 <= i < count implies (#[trigger] rows[i]).id == first_id + i
            && rows[i].snapshot_date == nth_month_end(start, i) by {
            if i < count - 1 {
                assert(rows[i] == front[i]);
            }
        }
        assert forall|i: int, j: int| 0 <= i < j < rows.len() implies date_lt(
            (#[trigger] rows[i]).snapshot_date,
            (#[trigger] rows[j]).snapshot_date,
        ) by {
            lemma_nth_month(start, today, i);
            lemma_nth_month(start, today, j);
        }
    }
}

/// Backfilling a second time, on whatever day and over whatever ledger,
/// never leaves two snapshots of one date, and changes nothing where the
/// series holds a snapshot.
pub proof fn lemma_backfill_twice(
    s: SnapshotSeriesView,
    first_ledger: LedgerView,
    first_day: Date,
    second_ledger: LedgerView,
    second_day: Date,
)
    requires
        s.wf(),
        first_ledger.wf(),
        second_ledger.wf(),
        first_day.valid(),
        second_day.valid(),
        backfill_result(s, first_ledger, first_day) is Ok,
        backfill_result(
            backfill_result(s, first_ledger, first_day)->Ok_0,
            second_ledger,
            second_day,
        ) is Ok,
    ensures
        ({
            let once = backfill_result(s, first_ledger, first_day)->Ok_0;
            let twice = backfill_result(once, second_ledger, second_day)->Ok_0;
            &&& once.wf()
            &&& twice.wf()
            &&& in_date_order(twice.snapshots)
            &&& s.snapshots.len() > 0 ==> once == s
            &&& once.snapshots.len() > 0 ==> twice == once
            &&& second_ledger == first_ledger && second_day == first_day ==> twice == once
        }),
{
    let once = backfill_result(s, first_ledger, first_day)->Ok_0;
    lemma_backfill_keeps_wf(s, first_ledger, first_day);
    lemma_backfill_keeps_wf(once, second_ledger, second_day);
    if once.snapshots.len() == 0 && second_ledger == first_ledger && second_day == first_day {
        if s.snapshots.len() == 0 {
            match earliest_date(first_ledger.postings) {
                None => {},
                Some(start) => {
                    lemma_earliest_valid(first_ledger);
                    let count = completed_months(start, first_day);
                    lemma_backfill_rows(first_ledger, start, first_day, s.next_id, count);
                },
            }
        }
    }
}

/// What backfilling makes of a well-formed series is well-formed.
pub proof fn lemma_backfill_keeps_wf(s: SnapshotSeriesView, v: LedgerView, today: Date)
    requires
        s.wf(),
        v.wf(),
        today.valid(),
        backfill_result(s, v, today) is Ok,
    ensures
        backfill_result(s, v, today)->Ok_0.wf(),
{
    if s.snapshots.len() == 0 {
        match earliest_date(v.postings) {
            None => {},
            Some(start) => {
                lemma_earliest_valid(v);
                let count = completed_months(start, today);
                lemma_backfill_rows(v, start, today, s.next_id, count);
                let rows = backfill_rows(v, start, s.next_id, count);
                assert(count <= 12 * (MAX_YEAR - MIN_YEAR + 1));
                assert forall|i: int, j: int| 0 <= i < j < rows.len() implies (
                #[trigger] rows[i]).id != (#[trigger] rows[j]).id by {}
            },
        }
    }
}

/// Why a snapshot is not taken back into the series; `None` for one that
/// is.
pub open spec fn restore_snapshot_error(v: SnapshotSeriesView, row: NetWorthSnapshot) -> Option<
    EngineError,
> {
    if row.id < 1 || row.id > MAX_ID {
        Some(EngineError::InvalidId)
    } else if has_snapshot_id(v.snapshots, row.id as int) || date_stored(
        v.snapshots,
        row.snapshot_date,
    ) {
        Some(EngineError::DuplicateId)
    } else if v.snapshots.len() >= MAX_ROWS {
        Some(EngineError::CapacityExceeded)
    } else {
        None
    }
}

/// The series of snapshots, in the order of their dates.
pub struct SnapshotSeries {
    snapshots: Vec<NetWorthSnapshot>,
    next_id: i64,
}

impl View for SnapshotSeries {
    type V = SnapshotSeriesView;

    closed spec fn view(&self) -> SnapshotSeriesView {
        SnapshotSeriesView { snapshots: self.snapshots@, next_id: self.next_id as int }
    }
}

impl SnapshotSeries {
    pub open spec fn wf(&self) -> bool {
        self@.wf()
    }

    /// An empty series.
    pub fn new() -> (r: SnapshotSeries)
        ensures
            r.wf(),
            r@.snapshots.len() == 0,
            r@.next_id == 1,
    {
        SnapshotSeries { snapshots: Vec::new(), next_id: 1 }
    }

    pub fn snapshots(&self) -> (r: &Vec<NetWorthSnapshot>)
        ensures
            r@ == self@.snapshots,
    {
        &self.snapshots
    }

    pub fn next_id(&self) -> (r: i64)
        ensures
            r == self@.next_id,
    {
        self.next_id
    }

    /// The place of the first snapshot that is not dated before `date`.
    fn lower_bound(&self, date: &Date) -> (p: usize)
        ensures
            p <= self@.snapshots.len(),
            forall|i: int| 0 <= i < p ==> date_lt((#[trigger] self@.snapshots[i]).snapshot_date, *date),
            p < self@.snapshots.len() ==> !date_lt(self@.snapshots[p as int].snapshot_date, *date),
    {
        let mut p: usize = 0;
        while p < self.snapshots.len() && self.snapshots[p].snapshot_date.is_before(date)
            invariant
                p <= self.snapshots.len(),
                forall|i: int|
                    0 <= i < p ==> date_lt((#[trigger] self.snapshots@[i]).snapshot_date, *date),
            decreases self.snapshots.len() - p,
        {
            p += 1;
        }
        p
    }

    /// Stores the totals for a date: in place of the row of that date, or
    /// as a new row. Gives the identifier of the row.
    pub fn put(&mut self, date: Date, assets: i128, liabilities: i128, net_worth: i128) -> (r:
        Result<i64, EngineError>)
        requires
            old(self).wf(),
        ensures
            final(self).wf(),
            match r {
                Ok(id) => {
                    &&& row_put(
                        old(self)@.snapshots,
                        final(self)@.snapshots,
                        NetWorthSnapshot {
                            id,
                            snapshot_date: date,
                            total_assets: assets,
                            total_liabilities: liabilities,
                            net_worth,
                        },
                    )
                    &&& if date_stored(old(self)@.snapshots, date) {
                        final(self)@.next_id == old(self)@.next_id && final(self)@.snapshots.len()
                            == old(self)@.snapshots.len() && has_snapshot_id(
                            old(self)@.snapshots,
                            id as int,
                        ) && stored_id(old(self)@.snapshots, date) == id
                    } else {
                        id == old(self)@.next_id
                            && final(self)@.next_id == id + 1
                            && final(self)@.snapshots.len() == old(self)@.snapshots.len() + 1
                    }
                },
                Err(e) => e == EngineError::CapacityExceeded && final(self)@ == old(self)@
                    && !date_stored(old(self)@.snapshots, date) && (old(self)@.snapshots.len()
                    >= MAX_ROWS || old(self)@.next_id > MAX_ID),
            },
    {
        let p = self.lower_bound(&date);
        let ghost before = self@;
        if p < self.snapshots.len() && self.snapshots[p].snapshot_date == date {
            let id = self.snapshots[p].id;
            let row = NetWorthSnapshot {
                id,
                snapshot_date: date,
                total_assets: assets,
                total_liabilities: liabilities,
                net_worth,
            };
            self.snapshots.set(p, row);
            proof {
                let after = self@;
                assert(after.snapshots =~= before.snapshots.update(p as int, row));
                assert(after.snapshots[p as int] == row);
                assert forall|i: int| 0 <= i < after.snapshots.len() implies (
                #[trigger] after.snapshots[i]).snapshot_date == before.snapshots[i].snapshot_date
                    && after.snapshots[i].id == before.snapshots[i].id by {}
                assert forall|x: NetWorthSnapshot| #[trigger]
                    after.snapshots.contains(x) implies x == row || (before.snapshots.contains(x)
                    && x.snapshot_date != row.snapshot_date) by {
                    let i = choose|i: int| 0 <= i < after.snapshots.len() && after.snapshots[i] == x;
                    if i != p {
                        assert(before.snapshots[i] == x);
                        if i < p {
                            assert(date_lt(
                                before.snapshots[i].snapshot_date,
                                before.snapshots[p as int].snapshot_date,
                            ));
                        } else {
                            assert(date_lt(
                                before.snapshots[p as int].snapshot_date,
                                before.snapshots[i].snapshot_date,
                            ));
                        }
                    }
                }
                assert forall|x: NetWorthSnapshot| #[trigger]
                    before.snapshots.contains(x) && x.snapshot_date
                        != row.snapshot_date implies after.snapshots.contains(x) by {
                    let i = choose|i: int|
                        0 <= i < before.snapshots.len() && before.snapshots[i] == x;
                    assert(i != p);
                    assert(after.snapshots[i] == x);
                }
                assert(before.snapshots[p as int].snapshot_date == date);
                assert(before.snapshots[p as int].id == id);
                let w = choose|i: int|
                    0 <= i < before.snapshots.len() && (
                    #[trigger] before.snapshots[i]).snapshot_date == date;
                if w < p {
                    assert(date_lt(
                        before.snapshots[w].snapshot_date,
                        before.snapshots[p as int].snapshot_date,
                    ));
                } else if w > p {
                    assert(date_lt(
                        before.snapshots[p as int].snapshot_date,
                        before.snapshots[w].snapshot_date,
                    ));
                }
            }
            Ok(id)
        } else {
            proof {
                assert forall|i: int| 0 <= i < before.snapshots.len() implies (
                #[trigger] before.snapshots[i]).snapshot_date != date by {
                    if i < p {
                    } else if i == p {
                    } else {
                        assert(date_lt(
                            before.snapshots[p as int].snapshot_date,
                            before.snapshots[i].snapshot_date,
                        ));
                    }
                }
            }
            if self.snapshots.len() >= MAX_ROWS || self.next_id > MAX_ID {
                return Err(EngineError::CapacityExceeded);
            }
            let id = self.next_id;
            let row = NetWorthSnapshot {
                id,
                snapshot_date: date,
                total_assets: assets,
                total_liabilities: liabilities,
                net_worth,
            };
            self.snapshots.insert(p, row);
            self.next_id = id + 1;
            proof {
                let after = self@;
                assert(after.snapshots =~= before.snapshots.insert(p as int, row));
                assert forall|i: int| 0 <= i < after.snapshots.len() implies (
                #[trigger] after.snapshots[i]) == (if i < p {
                    before.snapshots[i]
                } else if i == p {
                    row
                } else {
                    before.snapshots[i - 1]
                }) by {}
                assert forall|i: int, j: int| 0 <= i < j < after.snapshots.len() implies date_lt(
                    (#[trigger] after.snapshots[i]).snapshot_date,
                    (#[trigger] after.snapshots[j]).snapshot_date,
                ) by {
                    if j == p {
                    } else if i == p {
                        assert(after.snapshots[j] == before.snapshots[j - 1]);
                        if j - 1 > p {
                            assert(date_lt(
                                before.snapshots[p as int].snapshot_date,
                                before.snapshots[j - 1].snapshot_date,
                            ));
                        }
                    } else {
                        let i0 = if i < p {
                            i
                        } else {
                            i - 1
                        };
                        let j0 = if j < p {
                            j
                        } else {
                            j - 1
                        };
                        assert(date_lt(
                            before.snapshots[i0].snapshot_date,
                            before.snapshots[j0].snapshot_date,
                        ));
                    }
                }
                assert forall|i: int, j: int| 0 <= i < j < after.snapshots.len() implies (
                #[trigger] after.snapshots[i]).id != (#[trigger] after.snapshots[j]).id by {
                    let i0 = if i < p {
                        i
                    } else {
                        i - 1
                    };
                    let j0 = if j < p {
                        j
                    } else {
                        j - 1
                    };
                    if i != p && j != p {
                        assert(before.snapshots[i0].id != before.snapshots[j0].id);
                    }
                }
                assert(after.snapshots[p as int] == row);
                assert forall|x: NetWorthSnapshot| #[trigger]
                    after.snapshots.contains(x) implies x == row || (before.snapshots.contains(x)
                    && x.snapshot_date != row.snapshot_date) by {
                    let i = choose|i: int| 0 <= i < after.snapshots.len() && after.snapshots[i] == x;
                    if i < p {
                        assert(before.snapshots[i] == x);
                    } else if i > p {
                        assert(before.snapshots[i - 1] == x);
                    }
                }
                assert forall|x: NetWorthSnapshot| #[trigger]
                    before.snapshots.contains(x) && x.snapshot_date
                        != row.snapshot_date implies after.snapshots.contains(x) by {
                    let i = choose|i: int|
                        0 <= i < before.snapshots.len() && before.snapshots[i] == x;
                    if i < p {
                        assert(after.snapshots[i] == x);
                    } else {
                        assert(after.snapshots[i + 1] == x);
                    }
                }
            }
            Ok(id)
        }
    }

    /// Takes a snapshot back into the series under the identifier that it
    /// had.
    #[verifier::loop_isolation(false)]
    pub fn restore_snapshot(&mut self, row: NetWorthSnapshot) -> (r: Result<(), EngineError>)
        requires
            old(self).wf(),
        ensures
            final(self).wf(),
            match r {
                Ok(_) => row_put(old(self)@.snapshots, final(self)@.snapshots, row)
                    && final(self)@.snapshots.len() == old(self)@.snapshots.len() + 1
                    && final(self)@.next_id == (
                if row.id + 1 > old(self)@.next_id {
                    row.id + 1
                } else {
                    old(self)@.next_id
                }),
                Err(e) => final(self)@ == old(self)@,
            },
            r == (match restore_snapshot_error(old(self)@, row) {
                Some(e) => Err::<(), EngineError>(e),
                None => Ok::<(), EngineError>(()),
            }),
    {
        if row.id < 1 || row.id > MAX_ID {
            return Err(EngineError::InvalidId);
        }
        let mut i: usize = 0;
        while i < self.snapshots.len()
            invariant
                i <= self.snapshots.len(),
                forall|k: int|
                    0 <= k < i ==> (#[trigger] self.snapshots@[k]).id != row.id
                        && self.snapshots@[k].snapshot_date != row.snapshot_date,
            decreases self.snapshots.len() - i,
        {
            if self.snapshots[i].id == row.id || self.snapshots[i].snapshot_date
                == row.snapshot_date {
                return Err(EngineError::DuplicateId);
            }
            i += 1;
        }
        if self.snapshots.len() >= MAX_ROWS {
            return Err(EngineError::CapacityExceeded);
        }
        let p = self.lower_bound(&row.snapshot_date);
        let ghost before = self@;
        self.snapshots.insert(p, row);
        if row.id >= self.next_id {
            self.next_id = row.id + 1;
        }
        proof {
            let after = self@;
            assert(after.snapshots =~= before.snapshots.insert(p as int, row));
            assert forall|i: int| 0 <= i < after.snapshots.len() implies (
            #[trigger] after.snapshots[i]) == (if i < p {
                before.snapshots[i]
            } else if i == p {
                row
            } else {
                before.snapshots[i - 1]
            }) by {}
            assert forall|i: int, j: int| 0 <= i < j < after.snapshots.len() implies date_lt(
                (#[trigger] after.snapshots[i]).snapshot_date,
                (#[trigger] after.snapshots[j]).snapshot_date,
            ) by {
                if j == p {
                } else if i == p {
                    assert(after.snapshots[j] == before.snapshots[j - 1]);
                    if j - 1 > p {
                        assert(date_lt(
                            before.snapshots[p as int].snapshot_date,
                            before.snapshots[j - 1].snapshot_date,
                        ));
                    }
                } else {
                    let i0 = if i < p {
                        i
                    } else {
                        i - 1
                    };
                    let j0 = if j < p {
                        j
                    } else {
                        j - 1
                    };
                    assert(date_lt(
                        before.snapshots[i0].snapshot_date,
                        before.snapshots[j0].snapshot_date,
                    ));
                }
            }
            assert forall|i: int, j: int| 0 <= i < j < after.snapshots.len() implies (
            #[trigger] after.snapshots[i]).id != (#[trigger] after.snapshots[j]).id by {
                let i0 = if i < p {
                    i
                } else {
                    i - 1
                };
                let j0 = if j < p {
                    j
                } else {
                    j - 1
                };
                if i != p && j != p {
                    assert(before.snapshots[i0].id != before.snapshots[j0].id);
                }
            }
            assert(after.snapshots[p as int] == row);
            assert forall|x: NetWorthSnapshot| #[trigger]
                after.snapshots.contains(x) implies x == row || (before.snapshots.contains(x)
                && x.snapshot_date != row.snapshot_date) by {
                let i = choose|i: int| 0 <= i < after.snapshots.len() && after.snapshots[i] == x;
                if i < p {
                    assert(before.snapshots[i] == x);
                } else if i > p {
                    assert(before.snapshots[i - 1] == x);
                }
            }
            assert forall|x: NetWorthSnapshot| #[trigger]
                before.snapshots.contains(x) && x.snapshot_date
                    != row.snapshot_date implies after.snapshots.contains(x) by {
                let i = choose|i: int| 0 <= i < before.snapshots.len() && before.snapshots[i] == x;
                if i < p {
                    assert(after.snapshots[i] == x);
                } else {
                    assert(after.snapshots[i + 1] == x);
                }
            }
        }
        Ok(())
    }

    /// The most recent snapshots, at most `months` of them (twelve where
    /// no number is given, all for a negative number), the oldest first.
    pub fn get_net_worth_snapshots(&self, months: Option<i64>) -> (r: Vec<NetWorthSnapshot>)
        ensures
            r@ == self@.snapshots.skip(self@.snapshots.len() - shown(self@.snapshots.len(), months)),
    {
        let limit = match months {
            Some(m) => m,
            None => 12,
        };
        let len = self.snapshots.len();
        let take: usize = if limit < 0 {
            len
        } else if (limit as u64) < len as u64 {
            limit as usize
        } else {
            len
        };
        let first = len - take;
        let mut out: Vec<NetWorthSnapshot> = Vec::new();
        let mut i: usize = first;
        while i < len
            invariant
                first <= i <= len,
                len == self.snapshots@.len(),
                out@ == self.snapshots@.subrange(first as int, i as int),
            decreases len - i,
        {
            out.push(self.snapshots[i]);
            proof {
                assert(self.snapshots@.subrange(first as int, i + 1)
                    =~= self.snapshots@.subrange(first as int, i as int).push(
                    self.snapshots@[i as int],
                ));
            }
            i += 1;
        }
        proof {
            assert(self.snapshots@.subrange(first as int, len as int) =~= self.snapshots@.skip(
                first as int,
            ));
        }
        out
    }

    /// Writes the snapshots of `count` month ends from the month of
    /// `start` on into an empty series.
    fn fill(&mut self, ledger: &Ledger, start: Date, today: Date, count: u64)
        requires
            old(self).wf(),
            old(self)@.snapshots.len() == 0,
            ledger.wf(),
            start.valid(),
            today.valid(),
            count == completed_months(start, today),
            old(self)@.next_id + count <= MAX_ID + 1,
        ensures
            final(self).wf(),
            final(self)@.snapshots == backfill_rows(
                ledger@,
                start,
                old(self)@.next_id,
                count as int,
            ),
            final(self)@.next_id == old(self)@.next_id + count,
    {
        let ghost first_id = self@.next_id;
        let mut year: i64 = start.year as i64;
        let mut month: u32 = start.month;
        let mut n: u64 = 0;
        while n < count
            invariant
                n <= count,
                count == completed_months(start, today),
                start.valid(),
                today.valid(),
                ledger.wf(),
                first_id >= 1,
                first_id + count <= MAX_ID + 1,
                self@.next_id == first_id + n,
                self@.snapshots == backfill_rows(ledger@, start, first_id, n as int),
                1 <= month <= 12,
                month_index(year as int, month as int) == month_index(
                    start.year as int,
                    start.month as int,
                ) + n,
            decreases count - n,
        {
            proof {
                lemma_nth_month(start, today, n as int);
                lemma_backfill_rows(ledger@, start, today, first_id, n as int);
                assert(count <= 12 * (MAX_YEAR - MIN_YEAR + 1));
            }
            let date = last_day_of_month(year as i32, month);
            let (assets, liabilities) = calc_net_worth_at(ledger, Some(date));
            let id = self.next_id;
            self.snapshots.push(
                NetWorthSnapshot {
                    id,
                    snapshot_date: date,
                    total_assets: assets,
                    total_liabilities: liabilities,
                    net_worth: assets - liabilities,
                },
            );
            self.next_id = id + 1;
            if month == 12 {
                year = year + 1;
                month = 1;
            } else {
                month = month + 1;
            }
            n = n + 1;
        }
        proof {
            lemma_backfill_rows(ledger@, start, today, first_id, count as int);
            let rows = backfill_rows(ledger@, start, first_id, count as int);
            assert(count <= 12 * (MAX_YEAR - MIN_YEAR + 1));
            assert forall|i: int, j: int| 0 <= i < j < rows.len() implies (#[trigger] rows[i]).id
                != (#[trigger] rows[j]).id by {}
        }
    }
}

/// How many snapshots are shown of `len` when `months` are asked for.
pub open spec fn shown(len: nat, months: Option<i64>) -> int {
    let limit = match months {
        Some(m) => m as int,
        None => 12,
    };
    if limit < 0 || limit >= len {
        len as int
    } else {
        limit
    }
}

/// The earliest date of a transaction of the ledger.
pub fn find_earliest_date(ledger: &Ledger) -> (r: Option<Date>)
    ensures
        r == earliest_date(ledger@.postings),
{
    let postings = ledger.postings();
    let mut best: Option<Date> = None;
    let mut i: usize = 0;
    while i < postings.len()
        invariant
            i <= postings.len(),
            postings@ == ledger@.postings,
            best == earliest_date(postings@.take(i as int)),
        decreases postings.len() - i,
    {
        proof {
            assert(postings@.take(i + 1).drop_last() =~= postings@.take(i as int));
        }
        let d = postings[i].transaction.date;
        match best {
            None => {
                best = Some(d);
            },
            Some(b) => {
                if d.is_before(&b) {
                    best = Some(d);
                }
            },
        }
        i += 1;
    }
    proof {
        assert(postings@.take(i as int) =~= postings@);
    }
    best
}

/// `after` is the series `before` with the snapshot of the month of
/// `today` written for the ledger: under the identifier of the row that
/// `before` holds for the end of that month, in its place, or under the
/// next identifier as a new row.
pub open spec fn snapshot_generated(
    before: SnapshotSeriesView,
    after: SnapshotSeriesView,
    v: LedgerView,
    today: Date,
) -> bool {
    let date = month_end_spec(today.year as int, today.month as int);
    if date_stored(before.snapshots, date) {
        &&& row_put(
            before.snapshots,
            after.snapshots,
            snapshot_of(v, stored_id(before.snapshots, date) as int, date, Scope::All),
        )
        &&& after.snapshots.len() == before.snapshots.len()
        &&& after.next_id == before.next_id
    } else {
        &&& row_put(
            before.snapshots,
            after.snapshots,
            snapshot_of(v, before.next_id, date, Scope::All),
        )
        &&& after.snapshots.len() == before.snapshots.len() + 1
        &&& after.next_id == before.next_id + 1
    }
}

/// Whether the series has no room for the snapshot of the month of
/// `today`: it holds none for the end of that month, and the table is
/// full or the identifiers are used up.
pub open spec fn snapshot_refused(before: SnapshotSeriesView, today: Date) -> bool {
    !date_stored(before.snapshots, month_end_spec(today.year as int, today.month as int)) && (
    before.snapshots.len() >= MAX_ROWS || before.next_id > MAX_ID)
}

/// Two series in the order of their dates that hold the same rows agree
/// at their first `n` places.
proof fn lemma_same_rows_upto(a: Seq<NetWorthSnapshot>, b: Seq<NetWorthSnapshot>, n: int)
    requires
        in_date_order(a),
        in_date_order(b),
        forall|x: NetWorthSnapshot| a.contains(x) <==> b.contains(x),
        0 <= n <= a.len(),
        n <= b.len(),
    ensures
        forall|i: int| 0 <= i < n ==> a[i] == b[i],
    decreases n,
{
    if n > 0 {
        lemma_same_rows_upto(a, b, n - 1);
        let m = n - 1;
        assert(a.contains(a[m]));
        assert(b.contains(b[m]));
        let j = choose|j: int| 0 <= j < b.len() && b[j] == a[m];
        let i = choose|i: int| 0 <= i < a.len() && a[i] == b[m];
        if j < m {
            assert(a[j] == b[j]);
            assert(date_lt(a[j].snapshot_date, a[m].snapshot_date));
        } else if j > m {
            assert(date_lt(b[m].snapshot_date, b[j].snapshot_date));
            if i < m {
                assert(a[i] == b[i]);
                assert(date_lt(b[i].snapshot_date, b[m].snapshot_date));
            } else if i > m {
                assert(date_lt(a[m].snapshot_date, a[i].snapshot_date));
            }
        }
    }
}

/// Two series in the order of their dates that hold the same rows are
/// the same series.
pub proof fn lemma_same_rows(a: Seq<NetWorthSnapshot>, b: Seq<NetWorthSnapshot>)
    requires
        in_date_order(a),
        in_date_order(b),
        forall|x: NetWorthSnapshot| a.contains(x) <==> b.contains(x),
    ensures
        a == b,
{
    if a.len() > b.len() {
        lemma_same_rows_upto(a, b, b.len() as int);
        let k = b.len() as int;
        assert(a.contains(a[k]));
        let j = choose|j: int| 0 <= j < b.len() && b[j] == a[k];
        assert(a[j] == b[j]);
        assert(date_lt(a[j].snapshot_date, a[k].snapshot_date));
    } else if b.len() > a.len() {
        lemma_same_rows_upto(a, b, a.len() as int);
        let k = a.len() as int;
        assert(b.contains(b[k]));
        let j = choose|j: int| 0 <= j < a.len() && a[j] == b[k];
        assert(a[j] == b[j]);
        assert(date_lt(b[j].snapshot_date, b[k].snapshot_date));
    } else {
        lemma_same_rows_upto(a, b, a.len() as int);
        assert(a =~= b);
    }
}

/// The snapshot of a month is written once: generating it a second time
/// for the same ledger, on a day of the same month, leaves the series as
/// the first time left it.
pub proof fn lemma_snapshot_twice(
    before: SnapshotSeriesView,
    once: SnapshotSeriesView,
    twice: SnapshotSeriesView,
    v: LedgerView,
    first_day: Date,
    second_day: Date,
)
    requires
        before.wf(),
        once.wf(),
        twice.wf(),
        first_day.year == second_day.year,
        first_day.month == second_day.month,
        snapshot_generated(before, once, v, first_day),
        snapshot_generated(once, twice, v, second_day),
    ensures
        twice == once,
{
    let date = month_end_spec(first_day.year as int, first_day.month as int);
    let id = if date_stored(before.snapshots, date) {
        stored_id(before.snapshots, date) as int
    } else {
        before.next_id
    };
    let row = snapshot_of(v, id, date, Scope::All);
    assert(once.snapshots.contains(row));
    let at = choose|i: int| 0 <= i < once.snapshots.len() && once.snapshots[i] == row;
    assert(once.snapshots[at].snapshot_date == date);
    assert(date_stored(once.snapshots, date));
    let found = choose|i: int|
        0 <= i < once.snapshots.len() && (#[trigger] once.snapshots[i]).snapshot_date == date;
    if found < at {
        assert(date_lt(once.snapshots[found].snapshot_date, once.snapshots[at].snapshot_date));
    } else if found > at {
        assert(date_lt(once.snapshots[at].snapshot_date, once.snapshots[found].snapshot_date));
    }
    assert(stored_id(once.snapshots, date) == row.id);
    assert(1 <= once.snapshots[at].id < once.next_id);
    assert(snapshot_of(v, stored_id(once.snapshots, date) as int, date, Scope::All) == row);
    assert forall|x: NetWorthSnapshot| once.snapshots.contains(x) <==> twice.snapshots.contains(
        x,
    ) by {
        if once.snapshots.contains(x) && x.snapshot_date == date {
            let i = choose|i: int| 0 <= i < once.snapshots.len() && once.snapshots[i] == x;
            if i < at {
                assert(date_lt(once.snapshots[i].snapshot_date, once.snapshots[at].snapshot_date));
            } else if i > at {
                assert(date_lt(once.snapshots[at].snapshot_date, once.snapshots[i].snapshot_date));
            }
        }
    }
    lemma_same_rows(once.snapshots, twice.snapshots);
}

/// Stores the net worth over the whole journal for the end of the month
/// of `today`, in place of the snapshot of that date if there is one.
pub fn generate_net_worth_snapshot(series: &mut SnapshotSeries, ledger: &Ledger, today: Date) -> (r:
    Result<(), EngineError>)
    requires
        old(series).wf(),
        ledger.wf(),
        today.valid(),
    ensures
        final(series).wf(),
        match r {
            Ok(_) => !snapshot_refused(old(series)@, today) && snapshot_generated(
                old(series)@,
                final(series)@,
                ledger@,
                today,
            ),
            Err(e) => e == EngineError::CapacityExceeded && snapshot_refused(old(series)@, today)
                && final(series)@ == old(series)@,
        },
{
    let date = last_day_of_month(today.year, today.month);
    let (assets, liabilities) = calc_net_worth_at(ledger, None);
    match series.put(date, assets, liabilities, assets - liabilities) {
        Ok(_) => Ok(()),
        Err(e) => Err(e),
    }
}

/// Fills an empty series with a snapshot for the end of every month from
/// the month of the earliest transaction up to the month of `today`, the
/// month of `today` itself left out. A series that holds a snapshot is
/// left as it is.
pub fn backfill_net_worth_snapshots(series: &mut SnapshotSeries, ledger: &Ledger, today: Date) -> (r:
    Result<(), EngineError>)
    requires
        old(series).wf(),
        ledger.wf(),
        today.valid(),
    ensures
        final(series).wf(),
        match r {
            Ok(_) => backfill_result(old(series)@, ledger@, today) == Ok::<
                SnapshotSeriesView,
                EngineError,
            >(final(series)@),
            Err(e) => backfill_result(old(series)@, ledger@, today) == Err::<
                SnapshotSeriesView,
                EngineError,
            >(e) && final(series)@ == old(series)@,
        },
{
    if series.snapshots().len() > 0 {
        return Ok(());
    }
    let start = match find_earliest_date(ledger) {
        Some(d) => d,
        None => {
            return Ok(());
        },
    };
    proof {
        lemma_earliest_valid(ledger@);
    }
    let through: i64 = (today.year as i64 * 12 + today.month as i64) - (start.year as i64 * 12
        + start.month as i64);
    let count: u64 = if through > 0 {
        through as u64
    } else {
        0
    };
    if count > 0 && series.next_id() as u64 + count > MAX_ID as u64 + 1 {
        return Err(EngineError::CapacityExceeded);
    }
    series.fill(ledger, start, today, count);
    Ok(())
}

} // verus!
