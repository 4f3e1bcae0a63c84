//! Transactions that repeat: when the next one falls, and what becomes of
//! the schedule when one is posted or passed over.

use crate::date::{date_le, date_lt, day_number, valid_ymd, Date};
use crate::ledger::{
    draft_error, draft_rule_error, posted_as, Ledger, LedgerView,
    TransactionDraft,
};
use crate::model::{
    date_of_text, parse_date, parse_transaction_type, same_text, transaction_type_of, EngineError,
    TransactionType,
};
use vstd::prelude::*;

verus! {

/// How often a transaction repeats.
#[derive(Clone, Copy, Debug, PartialEq, Eq, Structural)]
pub enum Frequency {
    Daily,
    Weekly,
    Monthly,
    Yearly,
    Custom,
}

/// A transaction that repeats.
#[derive(Clone, Copy, Debug, PartialEq, Eq, Structural)]
pub struct RecurringTransaction {
    pub id: i64,
    pub transaction_type: TransactionType,
    pub amount: i64,
    pub account_id: i64,
    pub to_account_id: Option<i64>,
    pub category_id: Option<i64>,
    pub frequency: Frequency,
    pub interval_days: i64,
    pub start_date: Date,
    pub end_date: Option<Date>,
    pub next_execution_date: Date,
    pub is_active: bool,
    pub last_executed_date: Option<Date>,
    pub execution_count: i64,
}

#[derive(Debug)]
pub struct CreateRecurringTransactionInput {
    pub name: String,
    pub description: Option<String>,
    pub transaction_type: String,
    pub amount: i64,
    pub account_id: i64,
    pub to_account_id: Option<i64>,
    pub category_id: Option<i64>,
    pub frequency: String,
    pub interval_days: Option<i64>,
    pub start_date: String,
    pub end_date: Option<String>,
}

/// A repeating transaction that falls due within some days.
#[derive(Clone, Copy, Debug, PartialEq, Eq, Structural)]
pub struct UpcomingExecution {
    pub recurring_id: i64,
    pub transaction_type: TransactionType,
    pub amount: i64,
    pub next_execution_date: Date,
    pub days_until_execution: i64,
}

/// The frequency that a text names.
pub open spec fn frequency_of(text: Seq<char>) -> Option<Frequency> {
    if text == "DAILY"@ {
        Some(Frequency::Daily)
    } else if text == "WEEKLY"@ {
        Some(Frequency::Weekly)
    } else if text == "MONTHLY"@ {
        Some(Frequency::Monthly)
    } else if text == "YEARLY"@ {
        Some(Frequency::Yearly)
    } else if text == "CUSTOM"@ {
        Some(Frequency::Custom)
    } else {
        None
    }
}

/// Reads a frequency: `DAILY`, `WEEKLY`, `MONTHLY`, `YEARLY` or `CUSTOM`.
pub fn parse_frequency(text: &str) -> (r: Option<Frequency>)
    ensures
        r == frequency_of(text@),
{
    if same_text(text, "DAILY") {
        Some(Frequency::Daily)
    } else if same_text(text, "WEEKLY") {
        Some(Frequency::Weekly)
    } else if same_text(text, "MONTHLY") {
        Some(Frequency::Monthly)
    } else if same_text(text, "YEARLY") {
        Some(Frequency::Yearly)
    } else if same_text(text, "CUSTOM") {
        Some(Frequency::Custom)
    } else {
        None
    }
}

/// The days by which a schedule that counts in days moves on.
pub open spec fn step_days(frequency: Frequency, interval_days: i64) -> int {
    match frequency {
        Frequency::Daily => 1,
        Frequency::Weekly => 7,
        _ => interval_days as int,
    }
}

/// The same day of the month a month or a year on, for a schedule that
/// counts in months or years; `None` where the calendar has no such day.
pub open spec fn same_day_later(current: Date, frequency: Frequency) -> Option<Date> {
    let (y, m) = if frequency is Yearly {
        (current.year + 1, current.month as int)
    } else if current.month == 12 {
        (current.year + 1, 1int)
    } else {
        (current.year as int, current.month + 1)
    };
    if valid_ymd(y, m, current.day as int) {
        Some(Date { year: y as i32, month: m as u32, day: current.day })
    } else {
        None
    }
}

/// The day on which a repeating transaction falls next after `current`:
/// a day, a week or the custom number of days later, or the same day of
/// the next month or year. A month or year that has no such day, and a
/// day past the calendar, are refused.
pub fn calculate_next_execution_date(current: &Date, frequency: Frequency, interval_days: i64) -> (r:
    Result<Date, EngineError>)
    requires
        current.valid(),
    ensures
        frequency is Monthly || frequency is Yearly ==> r == (match same_day_later(
            *current,
            frequency,
        ) {
            Some(d) => Ok::<Date, EngineError>(d),
            None => Err::<Date, EngineError>(EngineError::DateOutOfRange),
        }),
        !(frequency is Monthly || frequency is Yearly) ==> (match r {
            Ok(d) => d.valid() && day_number(d) == day_number(*current) + step_days(
                frequency,
                interval_days,
            ),
            Err(e) => e == EngineError::DateOutOfRange && !exists|d: Date|
                d.valid() && day_number(d) == day_number(*current) + step_days(
                    frequency,
                    interval_days,
                ),
        }),
{
    match frequency {
        Frequency::Monthly => {
            let next = if current.month == 12 {
                if current.year == i32::MAX {
                    None
                } else {
                    Date::from_ymd(current.year + 1, 1, current.day)
                }
            } else {
                Date::from_ymd(current.year, current.month + 1, current.day)
            };
            match next {
                Some(d) => Ok(d),
                None => Err(EngineError::DateOutOfRange),
            }
        },
        Frequency::Yearly => {
            let next = if current.year == i32::MAX {
                None
            } else {
                Date::from_ymd(current.year + 1, current.month, current.day)
            };
            match next {
                Some(d) => Ok(d),
                None => Err(EngineError::DateOutOfRange),
            }
        },
        _ => {
            let days = match frequency {
                Frequency::Daily => 1,
                Frequency::Weekly => 7,
                _ => interval_days,
            };
            match current.plus_days(days) {
                Some(d) => Ok(d),
                None => Err(EngineError::DateOutOfRange),
            }
        },
    }
}

/// The end that a request carries, if any.
pub open spec fn requested_end(input: CreateRecurringTransactionInput) -> Option<Date> {
    match input.end_date {
        Some(text) => date_of_text(text@),
        None => None,
    }
}

/// The draft of the transaction that a schedule posts on a day.
pub open spec fn recurring_draft(
    kind: TransactionType,
    amount: i64,
    account_id: i64,
    to_account_id: Option<i64>,
    category_id: Option<i64>,
    date: Date,
) -> TransactionDraft {
    TransactionDraft {
        date,
        transaction_type: kind,
        amount,
        account_id,
        to_account_id,
        category_id,
        memo: None,
        photo_path: None,
        auto_settlement: false,
    }
}

/// Why a repeating transaction is not created; `None` where it is.
pub open spec fn create_recurring_error(v: LedgerView, input: CreateRecurringTransactionInput)
    -> Option<EngineError> {
    if transaction_type_of(input.transaction_type@) is None {
        Some(EngineError::InvalidKind)
    } else if frequency_of(input.frequency@) is None {
        Some(EngineError::InvalidFrequency)
    } else if input.amount <= 0 {
        Some(EngineError::NonPositiveAmount)
    } else if draft_rule_error(
        v,
        recurring_draft(
            transaction_type_of(input.transaction_type@).unwrap(),
            input.amount,
            input.account_id,
            input.to_account_id,
            input.category_id,
            Date { year: 1, month: 1, day: 1 },
        ),
    ) is Some {
        draft_rule_error(
            v,
            recurring_draft(
                transaction_type_of(input.transaction_type@).unwrap(),
                input.amount,
                input.account_id,
                input.to_account_id,
                input.category_id,
                Date { year: 1, month: 1, day: 1 },
            ),
        )
    } else if date_of_text(input.start_date@) is None {
        Some(EngineError::MalformedDate)
    } else if input.end_date is Some && requested_end(input) is None {
        Some(EngineError::MalformedDate)
    } else if requested_end(input) is Some && date_le(
        requested_end(input).unwrap(),
        date_of_text(input.start_date@).unwrap(),
    ) {
        Some(EngineError::EndBeforeStart)
    } else {
        None
    }
}

/// The days between two executions of a custom schedule: what is asked
/// for, at least one; one for every other schedule.
pub open spec fn interval_of(input: CreateRecurringTransactionInput) -> i64 {
    if frequency_of(input.frequency@) == Some(Frequency::Custom) {
        match input.interval_days {
            Some(n) => if n > 1 {
                n
            } else {
                1
            },
            None => 1,
        }
    } else {
        1
    }
}

/// The schedule that a request creates under an identifier. It falls due
/// for the first time on its start.
pub open spec fn recurring_from(id: i64, input: CreateRecurringTransactionInput)
    -> RecurringTransaction {
    RecurringTransaction {
        id,
        transaction_type: transaction_type_of(input.transaction_type@).unwrap(),
        amount: input.amount,
        account_id: input.account_id,
        to_account_id: input.to_account_id,
        category_id: input.category_id,
        frequency: frequency_of(input.frequency@).unwrap(),
        interval_days: interval_of(input),
        start_date: date_of_text(input.start_date@).unwrap(),
        end_date: requested_end(input),
        next_execution_date: date_of_text(input.start_date@).unwrap(),
        is_active: true,
        last_executed_date: None,
        execution_count: 0,
    }
}

/// Tests a request for a repeating transaction against the rules of the
/// poster, and makes the schedule.
pub fn create_recurring_transaction(
    ledger: &Ledger,
    id: i64,
    input: &CreateRecurringTransactionInput,
) -> (r: Result<RecurringTransaction, EngineError>)
    requires
        ledger.wf(),
    ensures
        match r {
            Ok(rec) => create_recurring_error(ledger@, *input) is None && rec == recurring_from(
                id,
                *input,
            ) && rec.start_date.valid(),
            Err(e) => create_recurring_error(ledger@, *input) == Some(e),
        },
{
    let kind = match parse_transaction_type(input.transaction_type.as_str()) {
        Some(k) => k,
        None => {
            return Err(EngineError::InvalidKind);
        },
    };
    let frequency = match parse_frequency(input.frequency.as_str()) {
        Some(f) => f,
        None => {
            return Err(EngineError::InvalidFrequency);
        },
    };
    let interval_days = match frequency {
        Frequency::Custom => match input.interval_days {
            Some(n) => if n > 1 {
                n
            } else {
                1
            },
            None => 1,
        },
        _ => 1,
    };
    if input.amount <= 0 {
        return Err(EngineError::NonPositiveAmount);
    }
    let probe = TransactionDraft {
        date: Date { year: 1, month: 1, day: 1 },
        transaction_type: kind,
        amount: input.amount,
        account_id: input.account_id,
        to_account_id: input.to_account_id,
        category_id: input.category_id,
        memo: None,
        photo_path: None,
        auto_settlement: false,
    };
    match ledger.check(&probe) {
        Ok(_) => {},
        Err(e) => {
            return Err(e);
        },
    }
    let start = match parse_date(input.start_date.as_str()) {
        Ok(d) => d,
        Err(e) => {
            return Err(e);
        },
    };
    let end = match &input.end_date {
        Some(text) => match parse_date(text.as_str()) {
            Ok(d) => {
                if d.is_on_or_before(&start) {
                    return Err(EngineError::EndBeforeStart);
                }
                Some(d)
            },
            Err(e) => {
                return Err(e);
            },
        },
        None => None,
    };
    Ok(
        RecurringTransaction {
            id,
            transaction_type: kind,
            amount: input.amount,
            account_id: input.account_id,
            to_account_id: input.to_account_id,
            category_id: input.category_id,
            frequency,
            interval_days,
            start_date: start,
            end_date: end,
            next_execution_date: start,
            is_active: true,
            last_executed_date: None,
            execution_count: 0,
        },
    )
}

/// The schedule moved on to `next`: past its end it is switched off and
/// keeps its date, else it falls due on `next`.
pub open spec fn moved_on(rec: RecurringTransaction, next: Date) -> RecurringTransaction {
    if rec.end_date is Some && date_lt(rec.end_date.unwrap(), next) {
        RecurringTransaction { is_active: false, ..rec }
    } else {
        RecurringTransaction { next_execution_date: next, ..rec }
    }
}

/// Passes over the next execution of a schedule.
pub fn skip_next_occurrence(rec: RecurringTransaction) -> (r: Result<
    RecurringTransaction,
    EngineError,
>)
    requires
        rec.next_execution_date.valid(),
    ensures
        match r {
            Ok(after) => exists|next: Date|
                calculated(rec, next) && after == #[trigger] moved_on(rec, next),
            Err(e) => e == EngineError::DateOutOfRange && !exists|next: Date| #[trigger]
                calculated(rec, next),
        },
{
    let next = match calculate_next_execution_date(
        &rec.next_execution_date,
        rec.frequency,
        rec.interval_days,
    ) {
        Ok(d) => d,
        Err(e) => {
            proof {
                assert forall|next: Date| !calculated(rec, next) by {
                    if calculated(rec, next) && !(rec.frequency is Monthly || rec.frequency
                        is Yearly) {
                        assert(next.valid() && day_number(next) == day_number(
                            rec.next_execution_date,
                        ) + step_days(rec.frequency, rec.interval_days));
                    }
                }
            }
            return Err(e);
        },
    };
    let past_end = match rec.end_date {
        Some(end) => end.is_before(&next),
        None => false,
    };
    let after = if past_end {
        RecurringTransaction { is_active: false, ..rec }
    } else {
        RecurringTransaction { next_execution_date: next, ..rec }
    };
    assert(calculated(rec, next));
    assert(after == moved_on(rec, next));
    Ok(after)
}

/// `next` is the day on which the schedule falls next after the day on
/// which it falls now.
pub open spec fn calculated(rec: RecurringTransaction, next: Date) -> bool {
    if rec.frequency is Monthly || rec.frequency is Yearly {
        same_day_later(rec.next_execution_date, rec.frequency) == Some(next)
    } else {
        next.valid() && day_number(next) == day_number(rec.next_execution_date) + step_days(
            rec.frequency,
            rec.interval_days,
        )
    }
}

/// Whether a schedule is to be executed on a day: it is switched on and
/// falls due on that day or fell due before.
pub open spec fn is_due(rec: RecurringTransaction, today: Date) -> bool {
    rec.is_active && date_le(rec.next_execution_date, today)
}

/// The schedule after an execution on `today` that moved it on to `next`.
pub open spec fn executed(rec: RecurringTransaction, today: Date, next: Date)
    -> RecurringTransaction {
    let counted = RecurringTransaction {
        last_executed_date: Some(today),
        execution_count: if rec.execution_count < i64::MAX {
            (rec.execution_count + 1) as i64
        } else {
            rec.execution_count
        },
        ..rec
    };
    moved_on(counted, next)
}

/// Whether a schedule posts its transaction on a day: it is due, and the
/// poster takes the transaction.
pub open spec fn executes(v: LedgerView, rec: RecurringTransaction, today: Date) -> bool {
    is_due(rec, today) && draft_error(
        v,
        recurring_draft(
            rec.transaction_type,
            rec.amount,
            rec.account_id,
            rec.to_account_id,
            rec.category_id,
            today,
        ),
    ) is None
}

/// `after` is the schedule after an execution on `today`: moved on to
/// the day on which it falls next, or as it was where the calendar has
/// no such day.
pub open spec fn schedule_after(rec: RecurringTransaction, today: Date, after: RecurringTransaction)
    -> bool {
    if exists|next: Date| #[trigger] calculated(rec, next) {
        exists|next: Date| #[trigger] calculated(rec, next) && after == executed(rec, today, next)
    } else {
        after == rec
    }
}

/// What the turn of a schedule makes of the ledger, of the schedule and
/// of the list of posted identifiers: a schedule that executes leaves its
/// transaction at the end of the journal and the identifier at the end
/// of the list; every other leaves all three as they were.
pub open spec fn recurring_step(
    ledger: LedgerView,
    ledger_after: LedgerView,
    rec: RecurringTransaction,
    rec_after: RecurringTransaction,
    ids: Seq<i64>,
    ids_after: Seq<i64>,
    today: Date,
) -> bool {
    if executes(ledger, rec, today) {
        let t = ledger_after.postings.last().transaction;
        &&& ids_after.len() == ids.len() + 1
        &&& ids_after.drop_last() == ids
        &&& ids_after.last() == ledger.next_transaction_id
        &&& posted_as(ledger, ledger_after, t)
        &&& recurring_posted(t, rec, today, ids_after.last())
        &&& schedule_after(rec, today, rec_after)
    } else {
        ledger_after == ledger && rec_after == rec && ids_after == ids
    }
}

/// Executes a schedule that is due: posts its transaction under the date
/// of `today` and moves the schedule on. A schedule that is not due, or
/// whose transaction the poster refuses, stays as it is.
pub fn execute_recurring(ledger: &mut Ledger, rec: RecurringTransaction, today: Date) -> (r: (
    RecurringTransaction,
    Option<i64>,
))
    requires
        old(ledger).wf(),
        rec.next_execution_date.valid(),
    ensures
        final(ledger).wf(),
        recurring_step(
            old(ledger)@,
            final(ledger)@,
            rec,
            r.0,
            Seq::empty(),
            match r.1 {
                Some(id) => seq![id],
                None => Seq::empty(),
            },
            today,
        ),
        r.1 is Some <==> executes(old(ledger)@, rec, today),
{
    if !rec.is_active || !rec.next_execution_date.is_on_or_before(&today) {
        return (rec, None);
    }
    let draft = TransactionDraft {
        date: today,
        transaction_type: rec.transaction_type,
        amount: rec.amount,
        account_id: rec.account_id,
        to_account_id: rec.to_account_id,
        category_id: rec.category_id,
        memo: Some("Auto-generated from recurring transaction".to_owned()),
        photo_path: None,
        auto_settlement: false,
    };
    proof {
        assert(draft_error(ledger@, draft) == draft_error(
            ledger@,
            recurring_draft(
                rec.transaction_type,
                rec.amount,
                rec.account_id,
                rec.to_account_id,
                rec.category_id,
                today,
            ),
        ));
    }
    let id = match ledger.post(draft) {
        Ok(id) => id,
        Err(_) => {
            return (rec, None);
        },
    };
    proof {
        assert(seq![id].drop_last() =~= Seq::<i64>::empty());
    }
    let next = match calculate_next_execution_date(
        &rec.next_execution_date,
        rec.frequency,
        rec.interval_days,
    ) {
        Ok(d) => d,
        Err(_) => {
            proof {
                assert forall|next: Date| !calculated(rec, next) by {
                    if calculated(rec, next) && !(rec.frequency is Monthly || rec.frequency
                        is Yearly) {
                        assert(next.valid() && day_number(next) == day_number(
                            rec.next_execution_date,
                        ) + step_days(rec.frequency, rec.interval_days));
                    }
                }
            }
            return (rec, Some(id));
        },
    };
    let counted = RecurringTransaction {
        last_executed_date: Some(today),
        execution_count: if rec.execution_count < i64::MAX {
            rec.execution_count + 1
        } else {
            rec.execution_count
        },
        ..rec
    };
    let past_end = match counted.end_date {
        Some(end) => end.is_before(&next),
        None => false,
    };
    let after = if past_end {
        RecurringTransaction { is_active: false, ..counted }
    } else {
        RecurringTransaction { next_execution_date: next, ..counted }
    };
    assert(calculated(rec, next));
    assert(after == executed(rec, today, next));
    (after, Some(id))
}

/// The transaction is the one that the schedule posts on the day.
pub open spec fn recurring_posted(
    t: crate::model::Transaction,
    rec: RecurringTransaction,
    today: Date,
    id: i64,
) -> bool {
    &&& t.id == id
    &&& t.date == today
    &&& t.transaction_type == rec.transaction_type
    &&& t.amount == rec.amount
    &&& t.account_id == rec.account_id
    &&& t.category_id == rec.category_id
    &&& t.to_account_id == rec.to_account_id
    &&& !t.auto_settlement
}

/// Whether a schedule falls due from `today` to `last`, and in how many
/// days.
pub open spec fn upcoming(rec: RecurringTransaction, today: Date, last: Date) -> Option<
    UpcomingExecution,
> {
    if rec.is_active && date_le(today, rec.next_execution_date) && date_le(
        rec.next_execution_date,
        last,
    ) {
        Some(
            UpcomingExecution {
                recurring_id: rec.id,
                transaction_type: rec.transaction_type,
                amount: rec.amount,
                next_execution_date: rec.next_execution_date,
                days_until_execution: (day_number(rec.next_execution_date) - day_number(today))
                    as i64,
            },
        )
    } else {
        None
    }
}

/// The executions among the first `n` schedules that fall due from
/// `today` to `last`.
pub open spec fn upcoming_rows(
    recs: Seq<RecurringTransaction>,
    today: Date,
    last: Date,
    n: int,
) -> Seq<UpcomingExecution>
    decreases n,
{
    if n <= 0 {
        Seq::empty()
    } else {
        let front = upcoming_rows(recs, today, last, n - 1);
        match upcoming(recs[n - 1], today, last) {
            Some(u) => front.push(u),
            None => front,
        }
    }
}

/// The schedules that fall due within `days_ahead` days from `today`, in
/// the order in which they are given.
pub fn get_upcoming_executions(
    recs: &Vec<RecurringTransaction>,
    days_ahead: i64,
    today: Date,
) -> (r: Result<Vec<UpcomingExecution>, EngineError>)
    requires
        today.valid(),
        forall|i: int| 0 <= i < recs@.len() ==> (#[trigger] recs@[i]).next_execution_date.valid(),
    ensures
        match r {
            Ok(v) => exists|last: Date|
                last.valid() && day_number(last) == day_number(today) + days_ahead && v@
                    == #[trigger] upcoming_rows(recs@, today, last, recs@.len() as int),
            Err(e) => e == EngineError::DateOutOfRange && !exists|last: Date|
                last.valid() && day_number(last) == day_number(today) + days_ahead,
        },
{
    let last = match today.plus_days(days_ahead) {
        Some(d) => d,
        None => {
            return Err(EngineError::DateOutOfRange);
        },
    };
    let mut out: Vec<UpcomingExecution> = Vec::new();
    let mut i: usize = 0;
    while i < recs.len()
        invariant
            i <= recs.len(),
            today.valid(),
            last.valid(),
            forall|k: int|
                0 <= k < recs@.len() ==> (#[trigger] recs@[k]).next_execution_date.valid(),
            out@ == upcoming_rows(recs@, today, last, i as int),
        decreases recs.len() - i,
    {
        let rec = recs[i];
        if rec.is_active && today.is_on_or_before(&rec.next_execution_date)
            && rec.next_execution_date.is_on_or_before(&last) {
            out.push(
                UpcomingExecution {
                    recurring_id: rec.id,
                    transaction_type: rec.transaction_type,
                    amount: rec.amount,
                    next_execution_date: rec.next_execution_date,
                    days_until_execution: rec.next_execution_date.days_since(&today),
                },
            );
        }
        i += 1;
    }
    Ok(out)
}

/// The ledger and the list of posted identifiers as they stand between
/// two turns.
pub struct ScheduleState {
    pub ledger: LedgerView,
    pub ids: Seq<i64>,
}

/// The states are those that the turns of the first `n` schedules leave,
/// one after the other in the order in which the schedules are given:
/// each state comes of the one before it by the turn of the next
/// schedule, which leaves the schedule as `recs_after` holds it.
pub open spec fn schedules_taken(
    states: Seq<ScheduleState>,
    recs: Seq<RecurringTransaction>,
    recs_after: Seq<RecurringTransaction>,
    n: int,
    today: Date,
) -> bool {
    &&& states.len() == n + 1
    &&& forall|k: int|
        0 <= k < n ==> recurring_step(
            (#[trigger] states[k]).ledger,
            states[k + 1].ledger,
            recs[k],
            recs_after[k],
            states[k].ids,
            states[k + 1].ids,
            today,
        )
}

/// Ledger, schedules and list of identifiers after the turns of the first
/// `n` schedules, one after the other in the order in which they are
/// given, each taking up the ledger and the list that the turn before it
/// left; the first takes up the ledger as it was given, and an empty
/// list.
pub open spec fn recurring_run(
    ledger: LedgerView,
    recs: Seq<RecurringTransaction>,
    ledger_after: LedgerView,
    recs_after: Seq<RecurringTransaction>,
    ids_after: Seq<i64>,
    n: int,
    today: Date,
) -> bool {
    exists|states: Seq<ScheduleState>| #[trigger]
        schedules_taken(states, recs, recs_after, n, today) && states[0] == (ScheduleState {
            ledger,
            ids: Seq::empty(),
        }) && states[n] == (ScheduleState { ledger: ledger_after, ids: ids_after })
}

/// Executes every schedule that is due on `today`, each once, in the
/// order in which they are given. A schedule whose transaction the poster
/// refuses is passed over and does not stop the others. Gives the
/// identifiers of the transactions that were posted.
pub fn process_recurring_transactions(
    ledger: &mut Ledger,
    recs: &mut Vec<RecurringTransaction>,
    today: Date,
) -> (r: Vec<i64>)
    requires
        old(ledger).wf(),
        forall|i: int|
            0 <= i < old(recs)@.len() ==> (#[trigger] old(recs)@[i]).next_execution_date.valid(),
    ensures
        final(ledger).wf(),
        final(recs)@.len() == old(recs)@.len(),
        recurring_run(
            old(ledger)@,
            old(recs)@,
            final(ledger)@,
            final(recs)@,
            r@,
            old(recs)@.len() as int,
            today,
        ),
        final(ledger)@.accounts == old(ledger)@.accounts,
        final(ledger)@.categories == old(ledger)@.categories,
        r@.len() <= old(recs)@.len(),
        final(ledger)@.postings.len() == old(ledger)@.postings.len() + r@.len(),
        final(ledger)@.postings.take(old(ledger)@.postings.len() as int) == old(ledger)@.postings,
        forall|j: int|
            0 <= j < r@.len()
                ==> #[trigger] r@[j] == final(ledger)@.postings[old(ledger)@.postings.len() + j].transaction.id
                && final(ledger)@.postings[old(ledger)@.postings.len() + j].transaction.date == today,
        forall|i: int|
            0 <= i < old(recs)@.len()
                && !is_due(old(recs)@[i], today)
                ==> #[trigger] final(recs)@[i] == old(recs)@[i],
        forall|i: int|
            0 <= i < old(recs)@.len() ==> (#[trigger] final(recs)@[i]).id == old(recs)@[i].id,
{
    let ghost base = ledger@.postings.len() as int;
    let ghost ledger0 = ledger@;
    let ghost recs0 = recs@;
    let mut out: Vec<i64> = Vec::new();
    let count = recs.len();
    let ghost mut states: Seq<ScheduleState> = seq![
        ScheduleState { ledger: ledger0, ids: Seq::empty() },
    ];
    let mut k: usize = 0;
    while k < count
        invariant
            k <= count,
            count == recs0.len(),
            recs@.len() == count,
            ledger.wf(),
            ledger0 == old(ledger)@,
            recs0 == old(recs)@,
            base == ledger0.postings.len(),
            ledger@.accounts == ledger0.accounts,
            ledger@.categories == ledger0.categories,
            out@.len() <= k,
            ledger@.postings.len() == base + out@.len(),
            ledger@.postings.take(base) == ledger0.postings,
            forall|j: int|
                0 <= j < out@.len() ==> #[trigger] out@[j] == ledger@.postings[base
                    + j].transaction.id && ledger@.postings[base + j].transaction.date == today,
            forall|i: int| k <= i < count ==> #[trigger] recs@[i] == recs0[i],
            forall|i: int| 0 <= i < count ==> (#[trigger] recs0[i]).next_execution_date.valid(),
            forall|i: int|
                0 <= i < count && !is_due(recs0[i], today) ==> #[trigger] recs@[i] == recs0[i],
            forall|i: int| 0 <= i < count ==> (#[trigger] recs@[i]).id == recs0[i].id,
            schedules_taken(states, recs0, recs@, k as int, today),
            states[0] == (ScheduleState { ledger: ledger0, ids: Seq::empty() }),
            states[k as int] == (ScheduleState { ledger: ledger@, ids: out@ }),
        decreases count - k,
    {
        let rec = recs[k];
        let ghost before = ledger@;
        let ghost shown = out@;
        let ghost held = recs@;
        let (after, posted) = execute_recurring(ledger, rec, today);
        recs.set(k, after);
        match posted {
            Some(id) => {
                out.push(id);
                proof {
                    let now = ledger@;
                    assert(now.postings.drop_last() == before.postings);
                    assert(now.postings.take(base) =~= before.postings.take(base));
                    assert forall|j: int| 0 <= j < out@.len() implies #[trigger] out@[j]
                        == now.postings[base + j].transaction.id && now.postings[base
                        + j].transaction.date == today by {
                        if j < shown.len() {
                            assert(out@[j] == shown[j]);
                            assert(now.postings.drop_last()[base + j] == now.postings[base + j]);
                        } else {
                            assert(now.postings[base + j] == now.postings.last());
                        }
                    }
                }
            },
            None => {},
        }
        proof {
            assert(recurring_step(before, ledger@, recs0[k as int], recs@[k as int], shown, out@, today))
                by {
                if posted is Some {
                    assert(out@.drop_last() =~= shown);
                }
            }
            let earlier = states;
            states = earlier.push(ScheduleState { ledger: ledger@, ids: out@ });
            assert forall|j: int| 0 <= j < k + 1 implies recurring_step(
                (#[trigger] states[j]).ledger,
                states[j + 1].ledger,
                recs0[j],
                recs@[j],
                states[j].ids,
                states[j + 1].ids,
                today,
            ) by {
                assert(states[j] == earlier[j]);
                if j < k {
                    assert(states[j + 1] == earlier[j + 1]);
                    assert(recs@[j] == held[j]);
                }
            }
            assert forall|i: int| k + 1 <= i < count implies #[trigger] recs@[i] == recs0[i] by {
                assert(recs@[i] == held[i]);
            }
            assert forall|i: int| 0 <= i < count && !is_due(recs0[i], today) implies #[trigger]
                recs@[i] == recs0[i] by {
                if i != k {
                    assert(recs@[i] == held[i]);
                }
            }
            assert forall|i: int| 0 <= i < count implies (#[trigger] recs@[i]).id
                == recs0[i].id by {
                if i != k {
                    assert(recs@[i] == held[i]);
                }
            }
        }
        k += 1;
    }
    proof {
        assert(schedules_taken(states, recs0, recs@, count as int, today));
    }
    out
}

/// A change of a schedule: the fields that are given replace the stored
/// ones.
#[derive(Debug)]
pub struct UpdateRecurringTransactionInput {
    pub id: i64,
    pub name: Option<String>,
    pub description: Option<String>,
    pub amount: Option<i64>,
    pub frequency: Option<String>,
    pub interval_days: Option<i64>,
    pub end_date: Option<String>,
}

/// `place` is the first place among the schedules that holds the
/// identifier.
pub open spec fn schedule_at(recs: Seq<RecurringTransaction>, id: int, place: int) -> bool {
    &&& 0 <= place < recs.len()
    &&& recs[place].id == id
    &&& forall|k: int| 0 <= k < place ==> (#[trigger] recs[k]).id != id
}

/// Whether a schedule has the identifier.
pub open spec fn has_schedule(recs: Seq<RecurringTransaction>, id: int) -> bool {
    exists|k: int| 0 <= k < recs.len() && (#[trigger] recs[k]).id == id
}

/// The first place that holds the schedule with the given identifier.
pub fn find_recurring(recs: &Vec<RecurringTransaction>, id: i64) -> (r: Option<usize>)
    ensures
        match r {
            Some(place) => schedule_at(recs@, id as int, place as int),
            None => !has_schedule(recs@, id as int),
        },
{
    let mut i: usize = 0;
    while i < recs.len()
        invariant
            i <= recs.len(),
            forall|k: int| 0 <= k < i ==> (#[trigger] recs@[k]).id != id,
        decreases recs.len() - i,
    {
        if recs[i].id == id {
            return Some(i);
        }
        i += 1;
    }
    None
}

/// Why a change of a schedule is refused; `None` where it is made.
pub open spec fn update_recurring_error(input: UpdateRecurringTransactionInput) -> Option<
    EngineError,
> {
    if input.amount is Some && input.amount.unwrap() <= 0 {
        Some(EngineError::NonPositiveAmount)
    } else if input.frequency is Some && frequency_of(input.frequency.unwrap()@) is None {
        Some(EngineError::InvalidFrequency)
    } else if input.interval_days is Some && input.interval_days.unwrap() < 1 {
        Some(EngineError::InvalidInterval)
    } else if input.end_date is Some && date_of_text(input.end_date.unwrap()@) is None {
        Some(EngineError::MalformedDate)
    } else if input.name is None && input.description is None && input.amount is None
        && input.frequency is None && input.interval_days is None && input.end_date is None {
        Some(EngineError::NothingToUpdate)
    } else {
        None
    }
}

/// The schedule with the given fields in place of its own.
pub open spec fn recurring_updated(rec: RecurringTransaction, input: UpdateRecurringTransactionInput)
    -> RecurringTransaction {
    RecurringTransaction {
        amount: match input.amount {
            Some(a) => a,
            None => rec.amount,
        },
        frequency: match input.frequency {
            Some(text) => frequency_of(text@).unwrap(),
            None => rec.frequency,
        },
        interval_days: match input.interval_days {
            Some(n) => n,
            None => rec.interval_days,
        },
        end_date: match input.end_date {
            Some(text) => date_of_text(text@),
            None => rec.end_date,
        },
        ..rec
    }
}

/// Changes the schedule with the identifier of the request: its amount,
/// how often it repeats, its interval in days and its last day, as far
/// as they are given. Gives the place of the schedule.
pub fn update_recurring_transaction(
    recs: &mut Vec<RecurringTransaction>,
    input: &UpdateRecurringTransactionInput,
) -> (r: Result<usize, EngineError>)
    ensures
        match r {
            Ok(place) => {
                &&& schedule_at(old(recs)@, input.id as int, place as int)
                &&& update_recurring_error(*input) is None
                &&& final(recs)@ == old(recs)@.update(
                    place as int,
                    recurring_updated(old(recs)@[place as int], *input),
                )
            },
            Err(e) => final(recs)@ == old(recs)@ && e == (if !has_schedule(
                old(recs)@,
                input.id as int,
            ) {
                EngineError::RecurringNotFound
            } else {
                update_recurring_error(*input).unwrap()
            }) && (!has_schedule(old(recs)@, input.id as int) || update_recurring_error(*input)
                is Some),
        },
{
    let place = match find_recurring(recs, input.id) {
        Some(p) => p,
        None => {
            return Err(EngineError::RecurringNotFound);
        },
    };
    let rec = recs[place];
    let amount = match input.amount {
        Some(a) => {
            if a <= 0 {
                return Err(EngineError::NonPositiveAmount);
            }
            a
        },
        None => rec.amount,
    };
    let frequency = match &input.frequency {
        Some(text) => match parse_frequency(text.as_str()) {
            Some(f) => f,
            None => {
                return Err(EngineError::InvalidFrequency);
            },
        },
        None => rec.frequency,
    };
    let interval_days = match input.interval_days {
        Some(n) => {
            if n < 1 {
                return Err(EngineError::InvalidInterval);
            }
            n
        },
        None => rec.interval_days,
    };
    let end_date = match &input.end_date {
        Some(text) => match parse_date(text.as_str()) {
            Ok(d) => Some(d),
            Err(e) => {
                return Err(e);
            },
        },
        None => rec.end_date,
    };
    if input.name.is_none() && input.description.is_none() && input.amount.is_none()
        && input.frequency.is_none() && input.interval_days.is_none() && input.end_date.is_none() {
        return Err(EngineError::NothingToUpdate);
    }
    recs.set(place, RecurringTransaction { amount, frequency, interval_days, end_date, ..rec });
    Ok(place)
}

/// Removes the first schedule with the given identifier. Gives the place
/// at which it stood.
pub fn delete_recurring_transaction(recs: &mut Vec<RecurringTransaction>, recurring_id: i64) -> (r:
    Result<usize, EngineError>)
    ensures
        match r {
            Ok(place) => schedule_at(old(recs)@, recurring_id as int, place as int) && final(recs)@
                == old(recs)@.remove(place as int),
            Err(e) => e == EngineError::RecurringNotFound && final(recs)@ == old(recs)@
                && !has_schedule(old(recs)@, recurring_id as int),
        },
{
    match find_recurring(recs, recurring_id) {
        Some(place) => {
            recs.remove(place);
            Ok(place)
        },
        None => Err(EngineError::RecurringNotFound),
    }
}

/// Switches the first schedule with the given identifier off if it is
/// on, and on if it is off. Gives its place and whether it is on now.
pub fn toggle_recurring_transaction(recs: &mut Vec<RecurringTransaction>, recurring_id: i64) -> (r:
    Result<(usize, bool), EngineError>)
    ensures
        match r {
            Ok((place, on)) => {
                &&& schedule_at(old(recs)@, recurring_id as int, place as int)
                &&& on == !old(recs)@[place as int].is_active
                &&& final(recs)@ == old(recs)@.update(
                    place as int,
                    (RecurringTransaction { is_active: on, ..old(recs)@[place as int] }),
                )
            },
            Err(e) => e == EngineError::RecurringNotFound && final(recs)@ == old(recs)@
                && !has_schedule(old(recs)@, recurring_id as int),
        },
{
    match find_recurring(recs, recurring_id) {
        Some(place) => {
            let rec = recs[place];
            let on = !rec.is_active;
            recs.set(place, RecurringTransaction { is_active: on, ..rec });
            Ok((place, on))
        },
        None => Err(EngineError::RecurringNotFound),
    }
}

/// No schedule falls due later than one that stands behind it.
pub open spec fn due_order(recs: Seq<RecurringTransaction>) -> bool {
    forall|i: int, j: int|
        0 <= i < j < recs.len() ==> date_le(
            (#[trigger] recs[i]).next_execution_date,
            (#[trigger] recs[j]).next_execution_date,
        )
}

/// The schedules, the one that falls due first at the head.
pub fn get_recurring_transactions(recs: &Vec<RecurringTransaction>) -> (r: Vec<RecurringTransaction>)
    ensures
        r@.to_multiset() == recs@.to_multiset(),
        due_order(r@),
{
    let mut out: Vec<RecurringTransaction> = Vec::new();
    let mut i: usize = 0;
    proof {
        assert(recs@.take(0) =~= out@);
    }
    while i < recs.len()
        invariant
            i <= recs.len(),
            out@.to_multiset() == recs@.take(i as int).to_multiset(),
            due_order(out@),
        decreases recs.len() - i,
    {
        let rec = recs[i];
        let mut at: usize = 0;
        while at < out.len() && out[at].next_execution_date.is_on_or_before(
            &rec.next_execution_date,
        )
            invariant
                at <= out.len(),
                forall|k: int|
                    0 <= k < at ==> date_le(
                        (#[trigger] out@[k]).next_execution_date,
                        rec.next_execution_date,
                    ),
            decreases out.len() - at,
        {
            at += 1;
        }
        let ghost before = out@;
        out.insert(at, rec);
        proof {
            vstd::seq_lib::to_multiset_insert(before, at as int, rec);
            assert(recs@.take(i + 1) =~= recs@.take(i as int).push(rec));
            vstd::seq_lib::to_multiset_build(recs@.take(i as int), rec);
            assert forall|a: int, b: int| 0 <= a < b < out@.len() implies date_le(
                (#[trigger] out@[a]).next_execution_date,
                (#[trigger] out@[b]).next_execution_date,
            ) by {
                if b < at {
                    assert(out@[a] == before[a] && out@[b] == before[b]);
                } else if b == at {
                    assert(out@[a] == before[a]);
                } else if a < at {
                    assert(out@[a] == before[a] && out@[b] == before[b - 1]);
                    if at < b - 1 {
                        assert(date_le(
                            before[at as int].next_execution_date,
                            before[b - 1].next_execution_date,
                        ));
                    }
                } else if a == at {
                    assert(out@[b] == before[b - 1]);
                    if at < b - 1 {
                        assert(date_le(
                            before[at as int].next_execution_date,
                            before[b - 1].next_execution_date,
                        ));
                    }
                } else {
                    assert(out@[a] == before[a - 1] && out@[b] == before[b - 1]);
                }
            }
        }
        i += 1;
    }
    proof {
        assert(recs@.take(i as int) =~= recs@);
    }
    out
}

} // verus!
