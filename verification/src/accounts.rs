//! Requests on accounts.

use crate::ledger::{account_added, account_from, Ledger, LedgerView, NewAccount};
use crate::model::{
    AccountGroup, AccountType, CreateAccountInput, CurrencyCode, EngineError, MAX_AMOUNT, MAX_ID,
    MAX_ROWS,
};
use vstd::prelude::*;

verus! {

/// The side of the balance sheet of the first group with the given
/// identifier.
pub open spec fn group_type_of(groups: Seq<AccountGroup>, id: int) -> Option<AccountType>
    decreases groups.len(),
{
    if groups.len() == 0 {
        None
    } else {
        match group_type_of(groups.drop_last(), id) {
            Some(t) => Some(t),
            None => if groups.last().id == id {
                Some(groups.last().account_type)
            } else {
                None
            },
        }
    }
}

/// The side of the balance sheet of the group with the given identifier.
pub fn find_group_type(groups: &Vec<AccountGroup>, id: i64) -> (r: Option<AccountType>)
    ensures
        r == group_type_of(groups@, id as int),
{
    let mut i: usize = 0;
    while i < groups.len()
        invariant
            i <= groups.len(),
            group_type_of(groups@.take(i as int), id as int) is None,
        decreases groups.len() - i,
    {
        proof {
            assert(groups@.take(i + 1).drop_last() =~= groups@.take(i as int));
        }
        if groups[i].id == id {
            proof {
                lemma_group_found(groups@, i as int, id as int);
            }
            return Some(groups[i].account_type);
        }
        i += 1;
    }
    proof {
        assert(groups@.take(i as int) =~= groups@);
    }
    None
}

/// The first group with an identifier decides, whatever groups follow.
proof fn lemma_group_found(groups: Seq<AccountGroup>, i: int, id: int)
    requires
        0 <= i < groups.len(),
        groups[i].id == id,
        group_type_of(groups.take(i), id) is None,
    ensures
        group_type_of(groups, id) == Some(groups[i].account_type),
    decreases groups.len() - i,
{
    if i == groups.len() - 1 {
        assert(groups.drop_last() =~= groups.take(i));
    } else {
        let front = groups.drop_last();
        assert(front.take(i) =~= groups.take(i));
        lemma_group_found(front, i, id);
    }
}

/// The rupee, the currency of an account for which none is given.
pub open spec fn default_currency() -> CurrencyCode {
    CurrencyCode { a: 76, b: 75, c: 82 }
}

/// The account that a request creates, once its group is found.
pub open spec fn new_account_of(groups: Seq<AccountGroup>, input: CreateAccountInput)
    -> NewAccount {
    NewAccount {
        group_id: input.group_id,
        account_type: group_type_of(groups, input.group_id as int).unwrap(),
        name: input.name,
        initial_balance: input.initial_balance,
        currency: match input.currency {
            Some(c) => c,
            None => default_currency(),
        },
    }
}

/// Why an account is not created; `None` where it is.
pub open spec fn create_account_error(
    v: LedgerView,
    groups: Seq<AccountGroup>,
    input: CreateAccountInput,
) -> Option<EngineError> {
    if group_type_of(groups, input.group_id as int) is None {
        Some(EngineError::GroupNotFound)
    } else if input.initial_balance < -MAX_AMOUNT || input.initial_balance > MAX_AMOUNT {
        Some(EngineError::AmountOutOfRange)
    } else if v.accounts.len() >= MAX_ROWS || v.next_account_id > MAX_ID {
        Some(EngineError::CapacityExceeded)
    } else {
        None
    }
}

/// Creates an account in a group; the group decides whether it is an
/// asset or a liability. Gives the new identifier.
pub fn create_account(ledger: &mut Ledger, groups: &Vec<AccountGroup>, input: CreateAccountInput)
    -> (r: Result<i64, EngineError>)
    requires
        old(ledger).wf(),
    ensures
        final(ledger).wf(),
        match r {
            Ok(id) => create_account_error(old(ledger)@, groups@, input) is None
                && id == old(ledger)@.next_account_id
                && account_added(
                old(ledger)@,
                final(ledger)@,
                account_from(id as int, new_account_of(groups@, input)),
            ),
            Err(e) => create_account_error(old(ledger)@, groups@, input) == Some(e)
                && final(ledger)@ == old(ledger)@,
        },
{
    let account_type = match find_group_type(groups, input.group_id) {
        Some(t) => t,
        None => {
            return Err(EngineError::GroupNotFound);
        },
    };
    if input.initial_balance < -MAX_AMOUNT || input.initial_balance > MAX_AMOUNT {
        return Err(EngineError::AmountOutOfRange);
    }
    if ledger.accounts().len() >= MAX_ROWS || ledger.next_account_id() > MAX_ID {
        return Err(EngineError::CapacityExceeded);
    }
    let id = ledger.next_account_id();
    let account = NewAccount {
        group_id: input.group_id,
        account_type,
        name: input.name,
        initial_balance: input.initial_balance,
        currency: match input.currency {
            Some(c) => c,
            None => CurrencyCode { a: 76, b: 75, c: 82 },
        },
    };
    assert(account == new_account_of(groups@, input));
    proof {
        old(ledger).lemma_ids_below_next();
    }
    match ledger.restore_account(id, account) {
        Ok(_) => Ok(id),
        Err(e) => {
            assert(false);
            Err(e)
        },
    }
}

} // verus!
