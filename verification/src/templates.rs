//! Templates of transactions: the rules that a template meets, and the
//! count of its uses.

use crate::currency::is_space;
use crate::ledger::{has_account, has_category, Ledger, LedgerView};
use crate::model::{parse_transaction_type, transaction_type_of, EngineError, TransactionType};
use vstd::prelude::*;
use vstd::string::StringSliceAdditionalSpecFns;

verus! {

#[derive(Debug)]
pub struct CreateTemplateInput {
    pub name: String,
    pub transaction_type: String,
    pub amount: i64,
    pub account_id: Option<i64>,
    pub to_account_id: Option<i64>,
    pub category_id: Option<i64>,
    pub memo: Option<String>,
}

#[derive(Debug)]
pub struct UpdateTemplateInput {
    pub id: i64,
    pub name: Option<String>,
    pub amount: Option<i64>,
    pub account_id: Option<i64>,
    pub to_account_id: Option<i64>,
    pub category_id: Option<i64>,
    pub memo: Option<String>,
}

/// A text that holds nothing but blanks.
pub open spec fn is_blank(bytes: Seq<u8>) -> bool {
    forall|i: int| 0 <= i < bytes.len() ==> is_space(#[trigger] bytes[i])
}

/// A transaction kept as a pattern for new ones, and how often it was
/// used.
#[derive(Clone, Copy, Debug, PartialEq, Eq, Structural)]
pub struct TransactionTemplate {
    pub id: i64,
    pub transaction_type: TransactionType,
    pub amount: i64,
    pub account_id: Option<i64>,
    pub to_account_id: Option<i64>,
    pub category_id: Option<i64>,
    pub use_count: i64,
}

/// Whether a text holds nothing but blanks.
pub fn is_blank_text(text: &str) -> (b: bool)
    ensures
        b == is_blank(text.spec_bytes()),
{
    let bytes = text.as_bytes();
    let mut i: usize = 0;
    while i < bytes.len()
        invariant
            i <= bytes.len(),
            bytes@ == text.spec_bytes(),
            forall|k: int| 0 <= k < i ==> is_space(#[trigger] bytes@[k]),
        decreases bytes.len() - i,
    {
        let b = bytes[i];
        if !(b == 32 || (b >= 9 && b <= 13)) {
            return false;
        }
        i += 1;
    }
    true
}

/// Why the accounts and the category of a template are refused; `None`
/// where they are taken.
pub open spec fn template_reference_error(
    v: LedgerView,
    account_id: Option<i64>,
    to_account_id: Option<i64>,
    category_id: Option<i64>,
) -> Option<EngineError> {
    if account_id is Some && !has_account(v.accounts, account_id.unwrap() as int) {
        Some(EngineError::AccountNotFound)
    } else if to_account_id is Some && !has_account(v.accounts, to_account_id.unwrap() as int) {
        Some(EngineError::DestinationNotFound)
    } else if category_id is Some && !has_category(v.categories, category_id.unwrap() as int) {
        Some(EngineError::CategoryNotFound)
    } else {
        None
    }
}

/// Why a template is not created; `None` where it is.
pub open spec fn create_template_error(v: LedgerView, input: CreateTemplateInput) -> Option<
    EngineError,
> {
    if transaction_type_of(input.transaction_type@) is None {
        Some(EngineError::InvalidKind)
    } else if is_blank(vstd::utf8::encode_utf8(input.name@)) {
        Some(EngineError::EmptyName)
    } else if input.amount < 0 {
        Some(EngineError::NegativeAmount)
    } else if template_reference_error(
        v,
        input.account_id,
        input.to_account_id,
        input.category_id,
    ) is Some {
        template_reference_error(v, input.account_id, input.to_account_id, input.category_id)
    } else if transaction_type_of(input.transaction_type@) == Some(TransactionType::Transfer) && (
    input.account_id is None || input.to_account_id is None) {
        Some(EngineError::DestinationRequired)
    } else if transaction_type_of(input.transaction_type@) == Some(TransactionType::Transfer)
        && input.account_id == input.to_account_id {
        Some(EngineError::SelfTransfer)
    } else {
        None
    }
}

fn check_references(
    ledger: &Ledger,
    account_id: Option<i64>,
    to_account_id: Option<i64>,
    category_id: Option<i64>,
) -> (r: Result<(), EngineError>)
    ensures
        match r {
            Ok(_) => template_reference_error(ledger@, account_id, to_account_id, category_id)
                is None,
            Err(e) => template_reference_error(ledger@, account_id, to_account_id, category_id)
                == Some(e),
        },
{
    match account_id {
        Some(a) => {
            if ledger.find_account(a).is_none() {
                return Err(EngineError::AccountNotFound);
            }
        },
        None => {},
    }
    match to_account_id {
        Some(a) => {
            if ledger.find_account(a).is_none() {
                return Err(EngineError::DestinationNotFound);
            }
        },
        None => {},
    }
    match category_id {
        Some(c) => {
            if ledger.find_category(c).is_none() {
                return Err(EngineError::CategoryNotFound);
            }
        },
        None => {},
    }
    Ok(())
}

/// The template that a request creates under an identifier. It was
/// never used yet.
pub open spec fn template_from(id: i64, input: CreateTemplateInput) -> TransactionTemplate {
    TransactionTemplate {
        id,
        transaction_type: transaction_type_of(input.transaction_type@).unwrap(),
        amount: input.amount,
        account_id: input.account_id,
        to_account_id: input.to_account_id,
        category_id: input.category_id,
        use_count: 0,
    }
}

/// Makes a template under an identifier: its kind is one of the three,
/// its name holds more than blanks, its amount is not negative, what it
/// names exists, and a transfer names two different accounts.
pub fn create_template(ledger: &Ledger, id: i64, input: &CreateTemplateInput) -> (r: Result<
    TransactionTemplate,
    EngineError,
>)
    ensures
        match r {
            Ok(t) => create_template_error(ledger@, *input) is None && t == template_from(
                id,
                *input,
            ),
            Err(e) => create_template_error(ledger@, *input) == Some(e),
        },
{
    let kind = match parse_transaction_type(input.transaction_type.as_str()) {
        Some(k) => k,
        None => {
            return Err(EngineError::InvalidKind);
        },
    };
    if is_blank_text(input.name.as_str()) {
        return Err(EngineError::EmptyName);
    }
    if input.amount < 0 {
        return Err(EngineError::NegativeAmount);
    }
    match check_references(ledger, input.account_id, input.to_account_id, input.category_id) {
        Ok(_) => {},
        Err(e) => {
            return Err(e);
        },
    }
    let is_transfer = match kind {
        TransactionType::Transfer => true,
        _ => false,
    };
    if is_transfer {
        match (input.account_id, input.to_account_id) {
            (Some(from), Some(to)) => {
                if from == to {
                    return Err(EngineError::SelfTransfer);
                }
            },
            _ => {
                return Err(EngineError::DestinationRequired);
            },
        }
    }
    Ok(
        TransactionTemplate {
            id,
            transaction_type: kind,
            amount: input.amount,
            account_id: input.account_id,
            to_account_id: input.to_account_id,
            category_id: input.category_id,
            use_count: 0,
        },
    )
}

/// Why a template is not changed; `None` where it is.
pub open spec fn update_template_error(v: LedgerView, input: UpdateTemplateInput) -> Option<
    EngineError,
> {
    if input.name is Some && is_blank(vstd::utf8::encode_utf8(input.name.unwrap()@)) {
        Some(EngineError::EmptyName)
    } else if input.amount is Some && input.amount.unwrap() < 0 {
        Some(EngineError::NegativeAmount)
    } else if template_reference_error(
        v,
        input.account_id,
        input.to_account_id,
        input.category_id,
    ) is Some {
        template_reference_error(v, input.account_id, input.to_account_id, input.category_id)
    } else if input.name is None && input.amount is None && input.account_id is None
        && input.to_account_id is None && input.category_id is None && input.memo is None {
        Some(EngineError::NothingToUpdate)
    } else {
        None
    }
}

/// `place` is the first place among the templates that holds the
/// identifier.
pub open spec fn template_at(templates: Seq<TransactionTemplate>, id: int, place: int) -> bool {
    &&& 0 <= place < templates.len()
    &&& templates[place].id == id
    &&& forall|k: int| 0 <= k < place ==> (#[trigger] templates[k]).id != id
}

/// Whether a template has the identifier.
pub open spec fn has_template(templates: Seq<TransactionTemplate>, id: int) -> bool {
    exists|k: int| 0 <= k < templates.len() && (#[trigger] templates[k]).id == id
}

/// The first place that holds the template with the given identifier.
pub fn find_template(templates: &Vec<TransactionTemplate>, template_id: i64) -> (r: Option<usize>)
    ensures
        match r {
            Some(place) => template_at(templates@, template_id as int, place as int),
            None => !has_template(templates@, template_id as int),
        },
{
    let mut i: usize = 0;
    while i < templates.len()
        invariant
            i <= templates.len(),
            forall|k: int| 0 <= k < i ==> (#[trigger] templates@[k]).id != template_id,
        decreases templates.len() - i,
    {
        if templates[i].id == template_id {
            return Some(i);
        }
        i += 1;
    }
    None
}

/// A template used once more. The count stays where it cannot grow.
pub open spec fn used_once_more(t: TransactionTemplate) -> TransactionTemplate {
    TransactionTemplate {
        use_count: if t.use_count < i64::MAX {
            (t.use_count + 1) as i64
        } else {
            t.use_count
        },
        ..t
    }
}

/// Counts one more use of the first template with the given identifier,
/// and gives the template as it stands then.
pub fn use_template(templates: &mut Vec<TransactionTemplate>, template_id: i64) -> (r: Result<
    TransactionTemplate,
    EngineError,
>)
    ensures
        match r {
            Ok(t) => exists|place: int| #[trigger]
                template_at(old(templates)@, template_id as int, place) && t == used_once_more(
                    old(templates)@[place],
                ) && final(templates)@ == old(templates)@.update(place, t),
            Err(e) => e == EngineError::TemplateNotFound && !has_template(
                old(templates)@,
                template_id as int,
            ) && final(templates)@ == old(templates)@,
        },
{
    match find_template(templates, template_id) {
        Some(place) => {
            let t = templates[place];
            let used = TransactionTemplate {
                use_count: if t.use_count < i64::MAX {
                    t.use_count + 1
                } else {
                    t.use_count
                },
                ..t
            };
            templates.set(place, used);
            assert(template_at(old(templates)@, template_id as int, place as int));
            Ok(used)
        },
        None => Err(EngineError::TemplateNotFound),
    }
}

/// Removes the first template with the given identifier. Gives the place
/// at which it stood.
pub fn delete_template(templates: &mut Vec<TransactionTemplate>, template_id: i64) -> (r: Result<
    usize,
    EngineError,
>)
    ensures
        match r {
            Ok(place) => template_at(old(templates)@, template_id as int, place as int)
                && final(templates)@ == old(templates)@.remove(place as int),
            Err(e) => e == EngineError::TemplateNotFound && !has_template(
                old(templates)@,
                template_id as int,
            ) && final(templates)@ == old(templates)@,
        },
{
    match find_template(templates, template_id) {
        Some(place) => {
            templates.remove(place);
            Ok(place)
        },
        None => Err(EngineError::TemplateNotFound),
    }
}

/// No template was used more often than one that stands before it.
pub open spec fn most_used_first(templates: Seq<TransactionTemplate>) -> bool {
    forall|i: int, j: int|
        0 <= i < j < templates.len() ==> (#[trigger] templates[i]).use_count >= (
        #[trigger] templates[j]).use_count
}

/// The templates, the one that was used most often at the head.
pub fn get_templates(templates: &Vec<TransactionTemplate>) -> (r: Vec<TransactionTemplate>)
    ensures
        r@.to_multiset() == templates@.to_multiset(),
        most_used_first(r@),
{
    let mut out: Vec<TransactionTemplate> = Vec::new();
    let mut i: usize = 0;
    proof {
        assert(templates@.take(0) =~= out@);
    }
    while i < templates.len()
        invariant
            i <= templates.len(),
            out@.to_multiset() == templates@.take(i as int).to_multiset(),
            most_used_first(out@),
        decreases templates.len() - i,
    {
        let t = templates[i];
        let mut at: usize = 0;
        while at < out.len() && out[at].use_count >= t.use_count
            invariant
                at <= out.len(),
                forall|k: int| 0 <= k < at ==> (#[trigger] out@[k]).use_count >= t.use_count,
            decreases out.len() - at,
        {
            at += 1;
        }
        let ghost before = out@;
        out.insert(at, t);
        proof {
            vstd::seq_lib::to_multiset_insert(before, at as int, t);
            assert(templates@.take(i + 1) =~= templates@.take(i as int).push(t));
            vstd::seq_lib::to_multiset_build(templates@.take(i as int), t);
            assert forall|a: int, b: int| 0 <= a < b < out@.len() implies (#[trigger] out@[a]).use_count
                >= (#[trigger] out@[b]).use_count by {
                if b < at {
                    assert(out@[a] == before[a] && out@[b] == before[b]);
                } else if b == at {
                    assert(out@[a] == before[a]);
                } else if a < at {
                    assert(out@[a] == before[a] && out@[b] == before[b - 1]);
                    if at < b - 1 {
                        assert(before[at as int].use_count >= before[b - 1].use_count);
                    }
                } else if a == at {
                    assert(out@[b] == before[b - 1]);
                    if at < b - 1 {
                        assert(before[at as int].use_count >= before[b - 1].use_count);
                    }
                } else {
                    assert(out@[a] == before[a - 1] && out@[b] == before[b - 1]);
                }
            }
        }
        i += 1;
    }
    proof {
        assert(templates@.take(i as int) =~= templates@);
    }
    out
}

/// The template with the amount, the accounts and the category of a
/// change in place of its own, as far as they are given.
pub open spec fn template_updated(t: TransactionTemplate, input: UpdateTemplateInput)
    -> TransactionTemplate {
    TransactionTemplate {
        amount: match input.amount {
            Some(a) => a,
            None => t.amount,
        },
        account_id: if input.account_id is Some {
            input.account_id
        } else {
            t.account_id
        },
        to_account_id: if input.to_account_id is Some {
            input.to_account_id
        } else {
            t.to_account_id
        },
        category_id: if input.category_id is Some {
            input.category_id
        } else {
            t.category_id
        },
        ..t
    }
}

/// Changes the first template with the identifier of the request. A new
/// name must hold more than blanks, a new amount must not be negative,
/// and what the change names must exist. Gives the place of the
/// template.
pub fn update_template(
    ledger: &Ledger,
    templates: &mut Vec<TransactionTemplate>,
    input: &UpdateTemplateInput,
) -> (r: Result<usize, EngineError>)
    ensures
        match r {
            Ok(place) => {
                &&& template_at(old(templates)@, input.id as int, place as int)
                &&& update_template_error(ledger@, *input) is None
                &&& final(templates)@ == old(templates)@.update(
                    place as int,
                    template_updated(old(templates)@[place as int], *input),
                )
            },
            Err(e) => final(templates)@ == old(templates)@ && (if !has_template(
                old(templates)@,
                input.id as int,
            ) {
                e == EngineError::TemplateNotFound
            } else {
                update_template_error(ledger@, *input) == Some(e)
            }),
        },
{
    let place = match find_template(templates, input.id) {
        Some(p) => p,
        None => {
            return Err(EngineError::TemplateNotFound);
        },
    };
    match &input.name {
        Some(name) => {
            if is_blank_text(name.as_str()) {
                return Err(EngineError::EmptyName);
            }
        },
        None => {},
    }
    match input.amount {
        Some(a) => {
            if a < 0 {
                return Err(EngineError::NegativeAmount);
            }
        },
        None => {},
    }
    match check_references(ledger, input.account_id, input.to_account_id, input.category_id) {
        Ok(_) => {},
        Err(e) => {
            return Err(e);
        },
    }
    if input.name.is_none() && input.amount.is_none() && input.account_id.is_none()
        && input.to_account_id.is_none() && input.category_id.is_none() && input.memo.is_none() {
        return Err(EngineError::NothingToUpdate);
    }
    let t = templates[place];
    let changed = TransactionTemplate {
        amount: match input.amount {
            Some(a) => a,
            None => t.amount,
        },
        account_id: if input.account_id.is_some() {
            input.account_id
        } else {
            t.account_id
        },
        to_account_id: if input.to_account_id.is_some() {
            input.to_account_id
        } else {
            t.to_account_id
        },
        category_id: if input.category_id.is_some() {
            input.category_id
        } else {
            t.category_id
        },
        ..t
    };
    templates.set(place, changed);
    Ok(place)
}

} // verus!
