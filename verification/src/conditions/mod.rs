//! The condition tree: groups, single comparisons and array quantifiers, and
//! the operands that comparisons and functions take.

pub mod functions;
pub mod operators;

use crate::conditions::functions::Fn;
use crate::conditions::operators::{AggregationOperator, ComparisonOperator};
use crate::facts::FactValue;
use vstd::prelude::*;

verus! {

/// A node of the decision tree.
pub enum Condition {
    Group(ConditionGroup),
    Single(SingleCondition),
    Array(ArrayCondition),
}

/// Folds the results of its conditions, all evaluated in the same array
/// context.
pub struct ConditionGroup {
    pub operator: AggregationOperator,
    pub conditions: Vec<Condition>,
}

/// Compares two operands.
pub struct SingleCondition {
    pub operator: ComparisonOperator,
    pub values: (ConditionValue, ConditionValue),
}

/// Folds the results of one condition over the elements of the collection at
/// `array`.
pub struct ArrayCondition {
    pub operator: AggregationOperator,
    pub array: ReferenceValue,
    pub condition: Box<Condition>,
}

/// An operand: a literal, a reference into the fact source, or a function of
/// further operands.
#[derive(Debug)]
pub enum ConditionValue {
    Fixed(FactValue),
    Json(ReferenceValue),
    Transform(Fn),
}

/// The address of a fact: segments separated by dots, where a segment
/// `name[]` stands for the current element of the collection `name`.
#[derive(Debug)]
pub struct ReferenceValue {
    pub address: String,
}

} // verus!
