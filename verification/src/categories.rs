//! Requests on categories.

use crate::ledger::{
    amended_category, category_added, category_update_error, has_category, Ledger, LedgerView,
};
use crate::model::{
    category_type_of, parse_category_type, Category, CategoryWithChildren, CreateCategoryInput,
    EngineError, UpdateCategoryInput, MAX_ID, MAX_ROWS,
};
use vstd::prelude::*;

verus! {

/// Why a category is not created; `None` where it is.
pub open spec fn create_category_error(v: LedgerView, input: CreateCategoryInput) -> Option<
    EngineError,
> {
    if category_type_of(input.category_type@) is None {
        Some(EngineError::InvalidKind)
    } else if input.parent_id is Some && !has_category(
        v.categories,
        input.parent_id.unwrap() as int,
    ) {
        Some(EngineError::ParentNotFound)
    } else if v.categories.len() >= MAX_ROWS || v.next_category_id > MAX_ID {
        Some(EngineError::CapacityExceeded)
    } else {
        None
    }
}

/// The category that a request creates under an identifier.
pub open spec fn category_from(id: int, input: CreateCategoryInput) -> Category {
    Category {
        id: id as i64,
        parent_id: input.parent_id,
        name: input.name,
        category_type: category_type_of(input.category_type@).unwrap(),
    }
}

/// Creates a category of income or of expense, on its own or under a
/// parent. Gives the new identifier.
pub fn create_category(ledger: &mut Ledger, input: CreateCategoryInput) -> (r: Result<
    i64,
    EngineError,
>)
    requires
        old(ledger).wf(),
    ensures
        final(ledger).wf(),
        match r {
            Ok(id) => create_category_error(old(ledger)@, input) is None
                && id == old(ledger)@.next_category_id
                && category_added(
                old(ledger)@,
                final(ledger)@,
                category_from(id as int, input),
            ),
            Err(e) => create_category_error(old(ledger)@, input) == Some(e) && final(ledger)@
                == old(ledger)@,
        },
{
    let kind = match parse_category_type(input.category_type.as_str()) {
        Some(k) => k,
        None => {
            return Err(EngineError::InvalidKind);
        },
    };
    match input.parent_id {
        Some(parent) => {
            if ledger.find_category(parent).is_none() {
                return Err(EngineError::ParentNotFound);
            }
        },
        None => {},
    }
    if ledger.categories().len() >= MAX_ROWS || ledger.next_category_id() > MAX_ID {
        return Err(EngineError::CapacityExceeded);
    }
    let id = ledger.next_category_id();
    let category = Category {
        id,
        parent_id: input.parent_id,
        name: input.name,
        category_type: kind,
    };
    proof {
        old(ledger).lemma_ids_below_next();
    }
    match ledger.restore_category(category) {
        Ok(_) => Ok(id),
        Err(e) => {
            assert(false);
            Err(e)
        },
    }
}

/// Changes the name or the parent of a category. A category cannot be
/// its own parent.
pub fn update_category(ledger: &mut Ledger, input: UpdateCategoryInput) -> (r: Result<
    (),
    EngineError,
>)
    requires
        old(ledger).wf(),
    ensures
        final(ledger).wf(),
        match r {
            Ok(_) => {
                &&& category_update_error(
                    old(ledger)@,
                    input.id as int,
                    input.name,
                    input.parent_id,
                ) is None
                &&& forall|k: int|
                    0 <= k < old(ledger)@.categories.len()
                        && (#[trigger] old(ledger)@.categories[k]).id == input.id
                        ==> final(ledger)@ == (LedgerView {
                        categories: old(ledger)@.categories.update(
                            k,
                            amended_category(
                                old(ledger)@.categories[k],
                                input.name,
                                input.parent_id,
                            ),
                        ),
                        ..old(ledger)@
                    })
            },
            Err(e) => category_update_error(
                old(ledger)@,
                input.id as int,
                input.name,
                input.parent_id,
            ) == Some(e) && final(ledger)@ == old(ledger)@,
        },
{
    ledger.update_category(input.id, input.name, input.parent_id)
}

/// The identifiers of the first `n` categories that have the given
/// parent.
pub open spec fn children_of(categories: Seq<Category>, parent: int, n: int) -> Seq<i64>
    decreases n,
{
    if n <= 0 {
        Seq::empty()
    } else {
        let front = children_of(categories, parent, n - 1);
        if categories[n - 1].parent_id == Some(parent as i64) {
            front.push(categories[n - 1].id)
        } else {
            front
        }
    }
}

/// The identifiers of the first `n` categories that have no parent.
pub open spec fn roots_of(categories: Seq<Category>, n: int) -> Seq<i64>
    decreases n,
{
    if n <= 0 {
        Seq::empty()
    } else {
        let front = roots_of(categories, n - 1);
        if categories[n - 1].parent_id is None {
            front.push(categories[n - 1].id)
        } else {
            front
        }
    }
}

/// The identifiers of the categories that have the given parent, in the
/// order of the ledger.
pub fn find_children(ledger: &Ledger, parent: i64) -> (r: Vec<i64>)
    ensures
        r@ == children_of(ledger@.categories, parent as int, ledger@.categories.len() as int),
{
    let categories = ledger.categories();
    let mut out: Vec<i64> = Vec::new();
    let mut i: usize = 0;
    while i < categories.len()
        invariant
            i <= categories.len(),
            categories@ == ledger@.categories,
            out@ == children_of(ledger@.categories, parent as int, i as int),
        decreases categories.len() - i,
    {
        let is_child = match categories[i].parent_id {
            Some(p) => p == parent,
            None => false,
        };
        if is_child {
            out.push(categories[i].id);
        }
        i += 1;
    }
    out
}

/// Every category without a parent, in the order of the ledger, with the
/// identifiers of its children.
pub fn get_categories_with_children(ledger: &Ledger) -> (r: Vec<CategoryWithChildren>)
    ensures
        r@.len() == roots_of(ledger@.categories, ledger@.categories.len() as int).len(),
        forall|j: int|
            0 <= j < r@.len() ==> (#[trigger] r@[j]).category_id == roots_of(
                ledger@.categories,
                ledger@.categories.len() as int,
            )[j] && r@[j].children@ == children_of(
                ledger@.categories,
                r@[j].category_id as int,
                ledger@.categories.len() as int,
            ),
{
    let categories = ledger.categories();
    let mut out: Vec<CategoryWithChildren> = Vec::new();
    let mut i: usize = 0;
    while i < categories.len()
        invariant
            i <= categories.len(),
            categories@ == ledger@.categories,
            out@.len() == roots_of(ledger@.categories, i as int).len(),
            forall|j: int|
                0 <= j < out@.len() ==> (#[trigger] out@[j]).category_id == roots_of(
                    ledger@.categories,
                    i as int,
                )[j] && out@[j].children@ == children_of(
                    ledger@.categories,
                    out@[j].category_id as int,
                    ledger@.categories.len() as int,
                ),
        decreases categories.len() - i,
    {
        if categories[i].parent_id.is_none() {
            let id = categories[i].id;
            let children = find_children(ledger, id);
            out.push(CategoryWithChildren { category_id: id, children });
        }
        i += 1;
    }
    out
}

} // verus!
