//! Row identifiers, one type per table.

use vstd::prelude::*;

verus! {

/// An `accounts` row.
#[derive(Clone, Copy, Debug, PartialEq, Eq, Structural, PartialOrd, Ord, Hash)]
pub struct AccountId(pub i64);

impl AccountId {
    /// The row number.
    pub fn as_i64(self) -> (r: i64)
        ensures
            r == self.0,
    {
        self.0
    }
}

/// A `businesses` row.
#[derive(Clone, Copy, Debug, PartialEq, Eq, Structural, PartialOrd, Ord, Hash)]
pub struct BusinessId(pub i64);

impl BusinessId {
    /// The row number.
    pub fn as_i64(self) -> (r: i64)
        ensures
            r == self.0,
    {
        self.0
    }
}

/// A `providers` row.
#[derive(Clone, Copy, Debug, PartialEq, Eq, Structural, PartialOrd, Ord, Hash)]
pub struct ProviderId(pub i64);

impl ProviderId {
    /// The row number.
    pub fn as_i64(self) -> (r: i64)
        ensures
            r == self.0,
    {
        self.0
    }
}

/// A `transactions` row.
#[derive(Clone, Copy, Debug, PartialEq, Eq, Structural, PartialOrd, Ord, Hash)]
pub struct TransactionId(pub i64);

impl TransactionId {
    /// The row number.
    pub fn as_i64(self) -> (r: i64)
        ensures
            r == self.0,
    {
        self.0
    }
}

} // verus!
