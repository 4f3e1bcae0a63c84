//! Purchases paid in installments: the due dates of a plan, the amount of
//! each payment, and what becomes of the plan when one is paid.

use crate::date::{date_le, day_number, Date};
use crate::ledger::{
    draft_error, has_account, has_category, posted_as, Ledger, LedgerView,
    TransactionDraft,
};
use crate::model::{same_text, EngineError, Transaction, TransactionType, MAX_AMOUNT};
use crate::money::{div_round, round_div};
use crate::text::{number_text, push_number};
use vstd::prelude::*;

verus! {

/// How often an installment falls due. A month counts as thirty days.
#[derive(Clone, Copy, Debug, PartialEq, Eq, Structural)]
pub enum InstallmentFrequency {
    Monthly,
    Weekly,
    Daily,
}

/// Where a plan stands.
#[derive(Clone, Copy, Debug, PartialEq, Eq, Structural)]
pub enum PlanStatus {
    Active,
    Completed,
    Cancelled,
}

/// A purchase that is paid in installments.
#[derive(Clone, Copy, Debug, PartialEq, Eq, Structural)]
pub struct InstallmentPlan {
    pub id: i64,
    pub total_amount: i64,
    pub num_installments: i32,
    pub amount_per_installment: i64,
    pub account_id: i64,
    pub category_id: i64,
    pub start_date: Date,
    pub frequency: InstallmentFrequency,
    pub next_due_date: Date,
    pub installments_paid: i32,
    pub total_paid: i64,
    pub status: PlanStatus,
}

/// One installment that was paid.
#[derive(Clone, Copy, Debug, PartialEq, Eq, Structural)]
pub struct InstallmentPayment {
    pub installment_plan_id: i64,
    pub transaction_id: i64,
    pub installment_number: i32,
    pub amount: i64,
    pub due_date: Date,
    pub paid_date: Date,
}

#[derive(Clone, Copy, Debug, PartialEq, Eq, Structural)]
pub struct CreateInstallmentPlan {
    pub total_amount: i64,
    pub num_installments: i32,
    pub account_id: i64,
    pub category_id: i64,
    pub start_date: Date,
    pub frequency: InstallmentFrequency,
}

/// The frequency that a text names.
pub open spec fn installment_frequency_of(text: Seq<char>) -> Option<InstallmentFrequency> {
    if text == "MONTHLY"@ {
        Some(InstallmentFrequency::Monthly)
    } else if text == "WEEKLY"@ {
        Some(InstallmentFrequency::Weekly)
    } else if text == "DAILY"@ {
        Some(InstallmentFrequency::Daily)
    } else {
        None
    }
}

/// Reads the frequency of a plan: `MONTHLY`, `WEEKLY` or `DAILY`.
pub fn parse_installment_frequency(text: &str) -> (r: Option<InstallmentFrequency>)
    ensures
        r == installment_frequency_of(text@),
{
    if same_text(text, "MONTHLY") {
        Some(InstallmentFrequency::Monthly)
    } else if same_text(text, "WEEKLY") {
        Some(InstallmentFrequency::Weekly)
    } else if same_text(text, "DAILY") {
        Some(InstallmentFrequency::Daily)
    } else {
        None
    }
}

/// The days from the start of a plan to its installment of a number.
pub open spec fn due_offset(frequency: InstallmentFrequency, installment_number: int) -> int {
    match frequency {
        InstallmentFrequency::Monthly => 30 * (installment_number - 1),
        InstallmentFrequency::Weekly => 7 * (installment_number - 1),
        InstallmentFrequency::Daily => installment_number - 1,
    }
}

/// The installment of the given number falls due on `due`.
pub open spec fn falls_due(
    start: Date,
    frequency: InstallmentFrequency,
    installment_number: int,
    due: Date,
) -> bool {
    due.valid() && day_number(due) == day_number(start) + due_offset(
        frequency,
        installment_number,
    )
}

/// The day on which the installment of a number falls due: the first on
/// the start of the plan, each later one thirty days, a week or a day
/// after the one before.
pub fn calculate_next_due_date(
    start_date: Date,
    frequency: InstallmentFrequency,
    installment_number: i32,
) -> (r: Result<Date, EngineError>)
    requires
        start_date.valid(),
    ensures
        match r {
            Ok(d) => falls_due(start_date, frequency, installment_number as int, d),
            Err(e) => e == EngineError::DateOutOfRange && !exists|d: Date|
                falls_due(start_date, frequency, installment_number as int, d),
        },
{
    let steps: i64 = installment_number as i64 - 1;
    let days: i64 = match frequency {
        InstallmentFrequency::Monthly => 30 * steps,
        InstallmentFrequency::Weekly => 7 * steps,
        InstallmentFrequency::Daily => steps,
    };
    match start_date.plus_days(days) {
        Some(d) => Ok(d),
        None => Err(EngineError::DateOutOfRange),
    }
}

/// Why a plan is not created; `None` where it is.
pub open spec fn create_plan_error(v: LedgerView, plan: CreateInstallmentPlan) -> Option<
    EngineError,
> {
    if plan.total_amount <= 0 {
        Some(EngineError::NonPositiveAmount)
    } else if plan.total_amount > MAX_AMOUNT {
        Some(EngineError::AmountOutOfRange)
    } else if plan.num_installments <= 0 {
        Some(EngineError::InvalidInstallments)
    } else if !has_account(v.accounts, plan.account_id as int) {
        Some(EngineError::AccountNotFound)
    } else if !has_category(v.categories, plan.category_id as int) {
        Some(EngineError::CategoryNotFound)
    } else {
        None
    }
}

/// The plan that a request creates under an identifier: the installment
/// is the total by the number of installments, rounded to whole minor
/// units, and the first one falls due on the start.
pub open spec fn plan_from(id: i64, plan: CreateInstallmentPlan) -> InstallmentPlan {
    InstallmentPlan {
        id,
        total_amount: plan.total_amount,
        num_installments: plan.num_installments,
        amount_per_installment: div_round(
            plan.total_amount as int,
            plan.num_installments as int,
        ) as i64,
        account_id: plan.account_id,
        category_id: plan.category_id,
        start_date: plan.start_date,
        frequency: plan.frequency,
        next_due_date: plan.start_date,
        installments_paid: 0,
        total_paid: 0,
        status: PlanStatus::Active,
    }
}

/// Makes a plan to pay a purchase in installments.
pub fn create_installment_plan(ledger: &Ledger, id: i64, plan: CreateInstallmentPlan) -> (r:
    Result<InstallmentPlan, EngineError>)
    ensures
        match r {
            Ok(p) => create_plan_error(ledger@, plan) is None && p == plan_from(id, plan),
            Err(e) => create_plan_error(ledger@, plan) == Some(e),
        },
{
    if plan.total_amount <= 0 {
        return Err(EngineError::NonPositiveAmount);
    }
    if plan.total_amount > MAX_AMOUNT {
        return Err(EngineError::AmountOutOfRange);
    }
    if plan.num_installments <= 0 {
        return Err(EngineError::InvalidInstallments);
    }
    if ledger.find_account(plan.account_id).is_none() {
        return Err(EngineError::AccountNotFound);
    }
    if ledger.find_category(plan.category_id).is_none() {
        return Err(EngineError::CategoryNotFound);
    }
    let each = round_div(plan.total_amount as i128, plan.num_installments as i128);
    Ok(
        InstallmentPlan {
            id,
            total_amount: plan.total_amount,
            num_installments: plan.num_installments,
            amount_per_installment: each as i64,
            account_id: plan.account_id,
            category_id: plan.category_id,
            start_date: plan.start_date,
            frequency: plan.frequency,
            next_due_date: plan.start_date,
            installments_paid: 0,
            total_paid: 0,
            status: PlanStatus::Active,
        },
    )
}

/// Why no installment of a plan is to be paid; `None` where one is.
pub open spec fn plan_closed(plan: InstallmentPlan) -> Option<EngineError> {
    if plan.status is Completed {
        Some(EngineError::PlanCompleted)
    } else if plan.status is Cancelled {
        Some(EngineError::PlanCancelled)
    } else if plan.installments_paid >= plan.num_installments {
        Some(EngineError::AllInstallmentsPaid)
    } else {
        None
    }
}

/// The amount of the next installment of a plan: the installment, or for
/// the last one what is left of the total.
pub open spec fn next_payment_amount(plan: InstallmentPlan) -> int {
    if plan.installments_paid + 1 == plan.num_installments {
        plan.total_amount - plan.total_paid
    } else {
        plan.amount_per_installment as int
    }
}

/// The amount of the next installment of a plan.
pub fn payment_amount(plan: &InstallmentPlan) -> (r: i128)
    ensures
        r == next_payment_amount(*plan),
{
    if plan.installments_paid as i64 + 1 == plan.num_installments as i64 {
        plan.total_amount as i128 - plan.total_paid as i128
    } else {
        plan.amount_per_installment as i128
    }
}

/// The transaction is the expense that pays the next installment of the
/// plan on the day.
pub open spec fn installment_posted(
    t: Transaction,
    plan: InstallmentPlan,
    name: Seq<char>,
    today: Date,
    id: i64,
) -> bool {
    &&& t.id == id
    &&& t.date == today
    &&& t.transaction_type is Expense
    &&& t.amount == next_payment_amount(plan)
    &&& t.account_id == plan.account_id
    &&& t.to_account_id is None
    &&& t.category_id == Some(plan.category_id)
    &&& t.memo matches Some(text) && text@ == installment_memo(name, plan)
}

/// The memo of the expense that pays the next installment of a plan: the
/// name of the plan, the number of the installment and the number of all
/// installments.
pub open spec fn installment_memo(name: Seq<char>, plan: InstallmentPlan) -> Seq<char> {
    name + " - Installment "@ + number_text(plan.installments_paid + 1) + "/"@ + number_text(
        plan.num_installments as int,
    )
}

/// The plan after its next installment is paid, with the day on which the
/// one after falls due.
pub open spec fn plan_after_payment(plan: InstallmentPlan, next_due: Date) -> InstallmentPlan {
    InstallmentPlan {
        installments_paid: (plan.installments_paid + 1) as i32,
        total_paid: (plan.total_paid + next_payment_amount(plan)) as i64,
        status: if plan.installments_paid + 1 >= plan.num_installments {
            PlanStatus::Completed
        } else {
            PlanStatus::Active
        },
        next_due_date: next_due,
        ..plan
    }
}

/// The draft of the expense that pays the next installment of a plan.
pub open spec fn payment_draft(plan: InstallmentPlan, today: Date) -> TransactionDraft {
    TransactionDraft {
        date: today,
        transaction_type: TransactionType::Expense,
        amount: next_payment_amount(plan) as i64,
        account_id: plan.account_id,
        to_account_id: None,
        category_id: Some(plan.category_id),
        memo: None,
        photo_path: None,
        auto_settlement: false,
    }
}

/// The installment after the next one of the plan falls due on `due`.
pub open spec fn due_after_next(plan: InstallmentPlan, due: Date) -> bool {
    falls_due(plan.start_date, plan.frequency, plan.installments_paid + 2, due)
}

/// Why the next installment of a plan is not paid; `None` where it is.
/// The plan is closed, or what is left to pay is no amount that can be
/// posted, or the installment after this one falls due past the
/// calendar, or the poster refuses the expense.
pub open spec fn payment_error(v: LedgerView, plan: InstallmentPlan, today: Date) -> Option<
    EngineError,
> {
    if plan_closed(plan) is Some {
        plan_closed(plan)
    } else if next_payment_amount(plan) <= 0 {
        Some(EngineError::NonPositiveAmount)
    } else if next_payment_amount(plan) > MAX_AMOUNT || plan.total_paid > MAX_AMOUNT
        || plan.total_paid < -MAX_AMOUNT {
        Some(EngineError::AmountOutOfRange)
    } else if plan.installments_paid + 1 < plan.num_installments && !exists|d: Date| #[trigger]
        due_after_next(plan, d) {
        Some(EngineError::DateOutOfRange)
    } else {
        draft_error(v, payment_draft(plan, today))
    }
}

/// Pays the next installment of a plan: posts it as an expense of
/// `today`, with the name of the plan in its memo, and moves the plan on. The last installment pays what is left
/// of the total, and completes the plan.
pub fn process_installment_payment(
    ledger: &mut Ledger,
    plan: InstallmentPlan,
    name: &str,
    today: Date,
) -> (r: Result<(InstallmentPlan, InstallmentPayment), EngineError>)
    requires
        old(ledger).wf(),
        plan.start_date.valid(),
    ensures
        final(ledger).wf(),
        match r {
            Ok((after, payment)) => {
                let t = final(ledger)@.postings.last().transaction;
                &&& payment_error(old(ledger)@, plan, today) is None
                &&& posted_as(old(ledger)@, final(ledger)@, t)
                &&& installment_posted(t, plan, name@, today, payment.transaction_id)
                &&& payment == (InstallmentPayment {
                    installment_plan_id: plan.id,
                    transaction_id: old(ledger)@.next_transaction_id as i64,
                    installment_number: (plan.installments_paid + 1) as i32,
                    amount: next_payment_amount(plan) as i64,
                    due_date: plan.next_due_date,
                    paid_date: today,
                })
                &&& after == plan_after_payment(plan, after.next_due_date)
                &&& (if plan.installments_paid + 1 < plan.num_installments {
                    falls_due(
                        plan.start_date,
                        plan.frequency,
                        plan.installments_paid + 2,
                        after.next_due_date,
                    )
                } else {
                    after.next_due_date == plan.next_due_date
                })
            },
            Err(e) => final(ledger)@ == old(ledger)@ && payment_error(old(ledger)@, plan, today)
                == Some(e),
        },
{
    match plan.status {
        PlanStatus::Completed => {
            return Err(EngineError::PlanCompleted);
        },
        PlanStatus::Cancelled => {
            return Err(EngineError::PlanCancelled);
        },
        PlanStatus::Active => {},
    }
    if plan.installments_paid >= plan.num_installments {
        return Err(EngineError::AllInstallmentsPaid);
    }
    let amount = payment_amount(&plan);
    if amount <= 0 {
        return Err(EngineError::NonPositiveAmount);
    }
    if amount > MAX_AMOUNT as i128 {
        return Err(EngineError::AmountOutOfRange);
    }
    if plan.total_paid > MAX_AMOUNT || plan.total_paid < -MAX_AMOUNT {
        return Err(EngineError::AmountOutOfRange);
    }
    let paid = plan.installments_paid + 1;
    let next_due = if paid < plan.num_installments {
        match calculate_next_due_date(plan.start_date, plan.frequency, paid + 1) {
            Ok(d) => {
                assert(due_after_next(plan, d));
                d
            },
            Err(e) => {
                return Err(e);
            },
        }
    } else {
        plan.next_due_date
    };
    let mut memo = name.to_owned();
    memo.push_str(" - Installment ");
    push_number(&mut memo, paid as i64);
    memo.push_str("/");
    push_number(&mut memo, plan.num_installments as i64);
    let draft = TransactionDraft {
        date: today,
        transaction_type: TransactionType::Expense,
        amount: amount as i64,
        account_id: plan.account_id,
        to_account_id: None,
        category_id: Some(plan.category_id),
        memo: Some(memo),
        photo_path: None,
        auto_settlement: false,
    };
    proof {
        assert(draft_error(ledger@, draft) == draft_error(ledger@, payment_draft(plan, today)));
    }
    let id = match ledger.post(draft) {
        Ok(id) => id,
        Err(e) => {
            return Err(e);
        },
    };
    let after = InstallmentPlan {
        installments_paid: paid,
        total_paid: plan.total_paid + amount as i64,
        status: if paid >= plan.num_installments {
            PlanStatus::Completed
        } else {
            PlanStatus::Active
        },
        next_due_date: next_due,
        ..plan
    };
    let payment = InstallmentPayment {
        installment_plan_id: plan.id,
        transaction_id: id,
        installment_number: paid,
        amount: amount as i64,
        due_date: plan.next_due_date,
        paid_date: today,
    };
    Ok((after, payment))
}

/// What is left of a plan: the amount and the number of installments.
pub fn remaining_of(plan: &InstallmentPlan) -> (r: (i128, i64))
    ensures
        r.0 == plan.total_amount - plan.total_paid,
        r.1 == plan.num_installments - plan.installments_paid,
{
    (
        plan.total_amount as i128 - plan.total_paid as i128,
        plan.num_installments as i64 - plan.installments_paid as i64,
    )
}

/// Whether an installment counts as paid on a day.
#[derive(Clone, Copy, Debug, PartialEq, Eq, Structural)]
pub enum PaymentStatus {
    Paid,
    Pending,
}

/// An installment that was paid, as a plan shows it.
#[derive(Clone, Copy, Debug, PartialEq, Eq, Structural)]
pub struct InstallmentPaymentDetails {
    pub payment: InstallmentPayment,
    pub installment_number: i32,
    pub amount: i64,
    pub due_date: Date,
    pub paid_date: Option<Date>,
    pub status: PaymentStatus,
}

/// A plan with its payments and what is left of it.
#[derive(Debug)]
pub struct InstallmentPlanWithDetails {
    pub plan: InstallmentPlan,
    pub payments: Vec<InstallmentPaymentDetails>,
    pub remaining_amount: i128,
    pub remaining_installments: i64,
    pub next_payment_amount: i64,
}

/// `place` is the first place among the plans that holds the identifier.
pub open spec fn plan_at(plans: Seq<InstallmentPlan>, id: int, place: int) -> bool {
    &&& 0 <= place < plans.len()
    &&& plans[place].id == id
    &&& forall|k: int| 0 <= k < place ==> (#[trigger] plans[k]).id != id
}

/// Whether a plan has the identifier.
pub open spec fn has_plan(plans: Seq<InstallmentPlan>, id: int) -> bool {
    exists|k: int| 0 <= k < plans.len() && (#[trigger] plans[k]).id == id
}

/// Whether an installment of the plan was paid.
pub open spec fn has_payment(payments: Seq<InstallmentPayment>, plan_id: int) -> bool {
    exists|k: int| 0 <= k < payments.len() && (#[trigger] payments[k]).installment_plan_id == plan_id
}

/// The first place that holds the plan with the given identifier.
pub fn find_plan(plans: &Vec<InstallmentPlan>, plan_id: i64) -> (r: Option<usize>)
    ensures
        match r {
            Some(place) => plan_at(plans@, plan_id as int, place as int),
            None => !has_plan(plans@, plan_id as int),
        },
{
    let mut i: usize = 0;
    while i < plans.len()
        invariant
            i <= plans.len(),
            forall|k: int| 0 <= k < i ==> (#[trigger] plans@[k]).id != plan_id,
        decreases plans.len() - i,
    {
        if plans[i].id == plan_id {
            return Some(i);
        }
        i += 1;
    }
    None
}

/// The first plan with the given identifier.
pub fn get_installment_plan(plans: &Vec<InstallmentPlan>, plan_id: i64) -> (r: Result<
    InstallmentPlan,
    EngineError,
>)
    ensures
        match r {
            Ok(plan) => exists|place: int| #[trigger]
                plan_at(plans@, plan_id as int, place) && plans@[place] == plan,
            Err(e) => e == EngineError::PlanNotFound && !has_plan(plans@, plan_id as int),
        },
{
    match find_plan(plans, plan_id) {
        Some(place) => {
            assert(plan_at(plans@, plan_id as int, place as int));
            Ok(plans[place])
        },
        None => Err(EngineError::PlanNotFound),
    }
}

/// A payment as a plan shows it on a day: paid if its day of payment is
/// not after that day, else pending.
pub open spec fn payment_shown(payment: InstallmentPayment, today: Date) -> InstallmentPaymentDetails {
    InstallmentPaymentDetails {
        payment,
        installment_number: payment.installment_number,
        amount: payment.amount,
        due_date: payment.due_date,
        paid_date: Some(payment.paid_date),
        status: if date_le(payment.paid_date, today) {
            PaymentStatus::Paid
        } else {
            PaymentStatus::Pending
        },
    }
}

/// The payments of a plan among the first `n` payments, as the plan
/// shows them, in the order in which they are given.
pub open spec fn payments_shown(
    payments: Seq<InstallmentPayment>,
    plan_id: int,
    today: Date,
    n: int,
) -> Seq<InstallmentPaymentDetails>
    decreases n,
{
    if n <= 0 {
        Seq::empty()
    } else {
        let front = payments_shown(payments, plan_id, today, n - 1);
        if payments[n - 1].installment_plan_id == plan_id {
            front.push(payment_shown(payments[n - 1], today))
        } else {
            front
        }
    }
}

/// A plan with its payments, each paid or pending as of `today`, what is
/// left to pay of the total, how many installments are left, and the
/// installment as the amount of the next payment.
pub fn get_installment_plan_with_details(
    plans: &Vec<InstallmentPlan>,
    payments: &Vec<InstallmentPayment>,
    plan_id: i64,
    today: Date,
) -> (r: Result<InstallmentPlanWithDetails, EngineError>)
    ensures
        match r {
            Ok(d) => {
                &&& exists|place: int| #[trigger]
                    plan_at(plans@, plan_id as int, place) && plans@[place] == d.plan
                &&& d.payments@ == payments_shown(
                    payments@,
                    plan_id as int,
                    today,
                    payments@.len() as int,
                )
                &&& d.remaining_amount == d.plan.total_amount - d.plan.total_paid
                &&& d.remaining_installments == d.plan.num_installments - d.plan.installments_paid
                &&& d.next_payment_amount == d.plan.amount_per_installment
            },
            Err(e) => e == EngineError::PlanNotFound && !has_plan(plans@, plan_id as int),
        },
{
    let plan = match get_installment_plan(plans, plan_id) {
        Ok(p) => p,
        Err(e) => {
            return Err(e);
        },
    };
    let mut rows: Vec<InstallmentPaymentDetails> = Vec::new();
    let mut i: usize = 0;
    while i < payments.len()
        invariant
            i <= payments.len(),
            rows@ == payments_shown(payments@, plan_id as int, today, i as int),
        decreases payments.len() - i,
    {
        let payment = payments[i];
        if payment.installment_plan_id == plan_id {
            rows.push(
                InstallmentPaymentDetails {
                    payment,
                    installment_number: payment.installment_number,
                    amount: payment.amount,
                    due_date: payment.due_date,
                    paid_date: Some(payment.paid_date),
                    status: if payment.paid_date.is_on_or_before(&today) {
                        PaymentStatus::Paid
                    } else {
                        PaymentStatus::Pending
                    },
                },
            );
        }
        i += 1;
    }
    let (remaining_amount, remaining_installments) = remaining_of(&plan);
    Ok(
        InstallmentPlanWithDetails {
            plan,
            payments: rows,
            remaining_amount,
            remaining_installments,
            next_payment_amount: plan.amount_per_installment,
        },
    )
}

/// Cancels the first plan with the given identifier, and gives its
/// place; changes nothing where there is no such plan.
pub fn cancel_installment_plan(plans: &mut Vec<InstallmentPlan>, plan_id: i64) -> (r: Option<usize>)
    ensures
        match r {
            Some(place) => plan_at(old(plans)@, plan_id as int, place as int) && final(plans)@
                == old(plans)@.update(
                place as int,
                (InstallmentPlan { status: PlanStatus::Cancelled, ..old(plans)@[place as int] }),
            ),
            None => !has_plan(old(plans)@, plan_id as int) && final(plans)@ == old(plans)@,
        },
{
    match find_plan(plans, plan_id) {
        Some(place) => {
            let plan = plans[place];
            plans.set(place, InstallmentPlan { status: PlanStatus::Cancelled, ..plan });
            Some(place)
        },
        None => None,
    }
}

/// Removes the first plan with the given identifier, and gives the place
/// at which it stood; removes nothing where there is no such plan. A
/// plan of which an installment was paid is not removed.
pub fn delete_installment_plan(
    plans: &mut Vec<InstallmentPlan>,
    payments: &Vec<InstallmentPayment>,
    plan_id: i64,
) -> (r: Result<Option<usize>, EngineError>)
    ensures
        match r {
            Ok(Some(place)) => !has_payment(payments@, plan_id as int) && plan_at(
                old(plans)@,
                plan_id as int,
                place as int,
            ) && final(plans)@ == old(plans)@.remove(place as int),
            Ok(None) => !has_payment(payments@, plan_id as int) && !has_plan(
                old(plans)@,
                plan_id as int,
            ) && final(plans)@ == old(plans)@,
            Err(e) => e == EngineError::PlanHasPayments && has_payment(payments@, plan_id as int)
                && final(plans)@ == old(plans)@,
        },
{
    let mut i: usize = 0;
    while i < payments.len()
        invariant
            i <= payments.len(),
            forall|k: int| 0 <= k < i ==> (#[trigger] payments@[k]).installment_plan_id != plan_id,
        decreases payments.len() - i,
    {
        if payments[i].installment_plan_id == plan_id {
            return Err(EngineError::PlanHasPayments);
        }
        i += 1;
    }
    match find_plan(plans, plan_id) {
        Some(place) => {
            plans.remove(place);
            Ok(Some(place))
        },
        None => Ok(None),
    }
}

/// No plan falls due later than one that stands behind it.
pub open spec fn plans_in_due_order(plans: Seq<InstallmentPlan>) -> bool {
    forall|i: int, j: int|
        0 <= i < j < plans.len() ==> date_le(
            (#[trigger] plans[i]).next_due_date,
            (#[trigger] plans[j]).next_due_date,
        )
}

/// Puts a plan into a list in due order, behind the plans that do not
/// fall due later.
fn put_in_due_order(out: &mut Vec<InstallmentPlan>, plan: InstallmentPlan)
    requires
        plans_in_due_order(old(out)@),
    ensures
        plans_in_due_order(final(out)@),
        final(out)@.to_multiset() == old(out)@.to_multiset().insert(plan),
{
    let mut at: usize = 0;
    while at < out.len() && out[at].next_due_date.is_on_or_before(&plan.next_due_date)
        invariant
            at <= out.len(),
            forall|k: int|
                0 <= k < at ==> date_le((#[trigger] out@[k]).next_due_date, plan.next_due_date),
        decreases out.len() - at,
    {
        at += 1;
    }
    let ghost before = out@;
    out.insert(at, plan);
    proof {
        vstd::seq_lib::to_multiset_insert(before, at as int, plan);
        assert forall|a: int, b: int| 0 <= a < b < out@.len() implies date_le(
            (#[trigger] out@[a]).next_due_date,
            (#[trigger] out@[b]).next_due_date,
        ) by {
            if b < at {
                assert(out@[a] == before[a] && out@[b] == before[b]);
            } else if b == at {
                assert(out@[a] == before[a]);
            } else if a < at {
                assert(out@[a] == before[a] && out@[b] == before[b - 1]);
                if at < b - 1 {
                    assert(date_le(before[at as int].next_due_date, before[b - 1].next_due_date));
                }
            } else if a == at {
                assert(out@[b] == before[b - 1]);
                if at < b - 1 {
                    assert(date_le(before[at as int].next_due_date, before[b - 1].next_due_date));
                }
            } else {
                assert(out@[a] == before[a - 1] && out@[b] == before[b - 1]);
            }
        }
    }
}

/// The plans among the first `n` that have the given status; all of
/// them where none is given.
pub open spec fn plans_with(plans: Seq<InstallmentPlan>, status: Option<PlanStatus>, n: int)
    -> Seq<InstallmentPlan>
    decreases n,
{
    if n <= 0 {
        Seq::empty()
    } else {
        let front = plans_with(plans, status, n - 1);
        if status is None || status == Some(plans[n - 1].status) {
            front.push(plans[n - 1])
        } else {
            front
        }
    }
}

/// The plans with the given status, or all plans, the one that falls due
/// first at the head.
pub fn get_installment_plans(plans: &Vec<InstallmentPlan>, status_filter: Option<PlanStatus>) -> (r:
    Vec<InstallmentPlan>)
    ensures
        r@.to_multiset() == plans_with(plans@, status_filter, plans@.len() as int).to_multiset(),
        plans_in_due_order(r@),
{
    let mut out: Vec<InstallmentPlan> = Vec::new();
    let mut i: usize = 0;
    proof {
        assert(plans_with(plans@, status_filter, 0) =~= out@);
    }
    while i < plans.len()
        invariant
            i <= plans.len(),
            out@.to_multiset() == plans_with(plans@, status_filter, i as int).to_multiset(),
            plans_in_due_order(out@),
        decreases plans.len() - i,
    {
        let plan = plans[i];
        let wanted = match status_filter {
            Some(s) => s == plan.status,
            None => true,
        };
        if wanted {
            proof {
                vstd::seq_lib::to_multiset_build(plans_with(plans@, status_filter, i as int), plan);
            }
            put_in_due_order(&mut out, plan);
        }
        i += 1;
    }
    out
}

/// The active plans among the first `n` whose next installment falls due
/// from `today` to `last`.
pub open spec fn plans_due(plans: Seq<InstallmentPlan>, today: Date, last: Date, n: int) -> Seq<
    InstallmentPlan,
>
    decreases n,
{
    if n <= 0 {
        Seq::empty()
    } else {
        let front = plans_due(plans, today, last, n - 1);
        let plan = plans[n - 1];
        if plan.status is Active && date_le(today, plan.next_due_date) && date_le(
            plan.next_due_date,
            last,
        ) {
            front.push(plan)
        } else {
            front
        }
    }
}

/// `last` is the day that lies `days_ahead` days after `today`.
pub open spec fn lies_ahead(today: Date, days_ahead: int, last: Date) -> bool {
    last.valid() && day_number(last) == day_number(today) + days_ahead
}

/// The active plans whose next installment falls due within `days_ahead`
/// days from `today`, the one that falls due first at the head.
pub fn get_upcoming_installments(plans: &Vec<InstallmentPlan>, days_ahead: i32, today: Date) -> (r:
    Result<Vec<InstallmentPlan>, EngineError>)
    requires
        today.valid(),
    ensures
        match r {
            Ok(v) => plans_in_due_order(v@) && exists|last: Date| #[trigger]
                lies_ahead(today, days_ahead as int, last) && v@.to_multiset() == plans_due(
                    plans@,
                    today,
                    last,
                    plans@.len() as int,
                ).to_multiset(),
            Err(e) => e == EngineError::DateOutOfRange && !exists|last: Date| #[trigger]
                lies_ahead(today, days_ahead as int, last),
        },
{
    let last = match today.plus_days(days_ahead as i64) {
        Some(d) => d,
        None => {
            return Err(EngineError::DateOutOfRange);
        },
    };
    assert(lies_ahead(today, days_ahead as int, last));
    let mut out: Vec<InstallmentPlan> = Vec::new();
    let mut i: usize = 0;
    proof {
        assert(plans_due(plans@, today, last, 0) =~= out@);
    }
    while i < plans.len()
        invariant
            i <= plans.len(),
            out@.to_multiset() == plans_due(plans@, today, last, i as int).to_multiset(),
            plans_in_due_order(out@),
        decreases plans.len() - i,
    {
        let plan = plans[i];
        let active = match plan.status {
            PlanStatus::Active => true,
            _ => false,
        };
        if active && today.is_on_or_before(&plan.next_due_date)
            && plan.next_due_date.is_on_or_before(&last) {
            proof {
                vstd::seq_lib::to_multiset_build(plans_due(plans@, today, last, i as int), plan);
            }
            put_in_due_order(&mut out, plan);
        }
        i += 1;
    }
    Ok(out)
}

} // verus!
