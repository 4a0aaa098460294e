//! The operators of conditions.

use vstd::prelude::*;

verus! {

/// How the results of several conditions are folded into one.
#[derive(Debug, Clone, Copy)]
pub enum AggregationOperator {
    /// True when every result is true.
    Every,
    /// True when some result is true.
    Any,
    /// True when no result is true.
    NoneOf,
}

/// How two values are compared.
#[derive(Debug, Clone, Copy)]
pub enum ComparisonOperator {
    Equals,
    GreaterThan,
    GreaterThanEqualTo,
    LessThan,
    LessThanEqualTo,
}

} // verus!
