//! Error values returned by the domain store.
//!
//! Every store operation either fully applies or fully rejects; a rejected
//! operation reports one of these recoverable, user-facing reasons.

use vstd::prelude::*;

verus! {

/// Why a store operation was rejected.  Validation errors cover bad input
/// values; not-found errors cover lookups of absent categories or items.
#[derive(Clone, Copy, Debug, PartialEq, Eq, Structural)]
pub enum StoreError {
    /// A category name was empty after trimming.
    EmptyCategoryName,
    /// A category with that name already exists.
    DuplicateCategory,
    /// The referenced category does not exist.
    CategoryNotFound,
    /// An item name was empty after trimming.
    EmptyItemName,
    /// An item with that name already exists within the category.
    DuplicateItem,
    /// The referenced item does not exist.
    ItemNotFound,
    /// A decay rate lay outside the accepted range.
    DecayRateOutOfRange,
    /// A score value was negative.
    NegativeScore,
    /// A score index lay beyond the item's score sequence.
    ScoreIndexOutOfRange,
}

} // verus!
