//! The built-in functions that compute a value from operands.

use crate::conditions::ConditionValue;
use vstd::prelude::*;

verus! {

/// A function applied to its operands.
#[derive(Debug)]
pub enum Fn {
    /// True when every operand is the truth value true.
    And(Vec<ConditionValue>),
    /// True when some operand is the truth value true.
    Or(Vec<ConditionValue>),
    /// The negation of a truth value.
    Not(Box<ConditionValue>),
    /// Whether the first operand is at least as large as every operand.
    GreaterThan(Vec<ConditionValue>),
    /// Whether the first operand is at most as large as every operand.
    LessThan(Vec<ConditionValue>),
    /// Whether every operand equals the first.
    Equal(Vec<ConditionValue>),
    /// The least of the operands that have a value.
    Min(Vec<ConditionValue>),
    /// The greatest of the operands that have a value.
    Max(Vec<ConditionValue>),
}

} // verus!
