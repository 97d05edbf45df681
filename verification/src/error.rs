//! The ways in which input is refused.

use vstd::prelude::*;

verus! {

/// Why a hand or a batch of hands was not evaluated.
#[derive(Debug, PartialEq, Eq)]
pub enum HandError {
    /// A card has a face or a suit symbol that is not known.
    InvalidCard,
    /// A hand does not have exactly five cards.
    InvalidHandSize,
    /// A card identifier occurs more than once in a batch; it is given.
    DuplicateCard(String),
}

} // verus!
