use vstd::prelude::*;

verus! {

/// Why an operation was refused.
///
/// A validation failure (every variant but `Store`) rejects the whole batch:
/// no row of the store is mutated. A store failure aborts the in-flight
/// transaction and is surfaced as a terminal error.
#[derive(Debug)]
pub enum Error {
    /// A field name outside the entity's whitelist of updatable columns.
    UnknownField(String),
    /// A whitelisted field carried a value of the wrong semantic type.
    InvalidValue(String),
    /// A sample-set delta carried a negative quantity.
    NegativeQuantity,
    /// A sensor record's task reference differs from the batch's task id.
    TaskMismatch,
    /// An uploaded file name carries no supported log-format extension.
    UnsupportedFormat,
    /// The record store refused a statement (constraint violation or
    /// identifier exhaustion).
    Store,
}

impl Error {
    /// True for the errors that reject a batch as invalid input, as opposed
    /// to a failure of the store itself.
    pub fn is_validation(&self) -> (r: bool)
        ensures
            r == !(self is Store),
    {
        !matches!(self, Error::Store)
    }
}

} // verus!
