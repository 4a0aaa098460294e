//! The evaluation of a condition tree against a fact source.

pub mod evaluate_function;

use crate::conditions::functions::Fn;
use crate::conditions::operators::{AggregationOperator, ComparisonOperator};
use crate::conditions::{ArrayCondition, Condition, ConditionGroup, ConditionValue, SingleCondition};
use crate::evaluation::evaluate_function::{
    all_equal_first, all_true, evaluate_fn, first_is_greatest, first_is_least, greatest, least,
    negation, some_true,
};
use crate::facts::binary64::Relation;
use crate::facts::context::{item_entries, ArrayContext};
use crate::facts::{
    compare_optional, optional_model, optional_relation, FactModel, FactValue, GetFact,
};
use vstd::prelude::*;

verus! {

/// The value of an operand: a literal is its own value, a reference is
/// looked up in the fact source, a function is applied to its operands.
pub open spec fn operand_value<F: GetFact>(
    value: ConditionValue,
    facts: F,
    context: Seq<(Seq<char>, int)>,
) -> Option<FactModel>
    decreases value,
{
    match value {
        ConditionValue::Fixed(fixed) => Some(fixed@),
        ConditionValue::Json(reference) => facts.fact_at(reference.address@, context),
        ConditionValue::Transform(function) => function_value(function, facts, context),
    }
}

/// The values of a list of operands, in order.
pub open spec fn operand_values<F: GetFact>(
    values: Seq<ConditionValue>,
    facts: F,
    context: Seq<(Seq<char>, int)>,
) -> Seq<Option<FactModel>>
    decreases values,
{
    Seq::new(
        values.len(),
        |i: int|
            if 0 <= i < values.len() {
                operand_value(values[i], facts, context)
            } else {
                None
            },
    )
}

/// The value of a function applied to its operands. The comparison
/// functions have no value with fewer than two operands.
pub open spec fn function_value<F: GetFact>(
    function: Fn,
    facts: F,
    context: Seq<(Seq<char>, int)>,
) -> Option<FactModel>
    decreases function,
{
    match function {
        Fn::And(operands) => Some(
            FactModel::Boolean(all_true(operand_values(operands@, facts, context))),
        ),
        Fn::Or(operands) => Some(
            FactModel::Boolean(some_true(operand_values(operands@, facts, context))),
        ),
        Fn::Not(operand) => negation(operand_value(*operand, facts, context)),
        Fn::Min(operands) => least(operand_values(operands@, facts, context)),
        Fn::Max(operands) => greatest(operand_values(operands@, facts, context)),
        Fn::GreaterThan(operands) => if operands@.len() < 2 {
            None
        } else {
            Some(FactModel::Boolean(first_is_greatest(operand_values(operands@, facts, context))))
        },
        Fn::LessThan(operands) => if operands@.len() < 2 {
            None
        } else {
            Some(FactModel::Boolean(first_is_least(operand_values(operands@, facts, context))))
        },
        Fn::Equal(operands) => if operands@.len() < 2 {
            None
        } else {
            Some(FactModel::Boolean(all_equal_first(operand_values(operands@, facts, context))))
        },
    }
}

/// Resolves an operand to its value.
pub fn get_fact_from_condition_value<F: GetFact>(
    condition_value: &ConditionValue,
    facts: &F,
    array_context: &ArrayContext,
) -> (fact: Option<FactValue>)
    ensures
        optional_model(fact) == operand_value(*condition_value, *facts, array_context@),
    decreases condition_value, 0nat,
{
    match condition_value {
        ConditionValue::Fixed(value) => Some(value.duplicate()),
        ConditionValue::Json(reference) => facts.get_fact(reference.address.as_str(), array_context),
        ConditionValue::Transform(function) => evaluate_fn(function, facts, array_context),
    }
}

/// Whether a comparison holds of two values that stand in `relation`.
/// Nothing but inequality can be said of unordered values, so no comparison
/// holds of them.
pub open spec fn comparison_holds(operator: ComparisonOperator, relation: Relation) -> bool {
    match operator {
        ComparisonOperator::Equals => relation == Relation::Equal,
        ComparisonOperator::GreaterThan => relation == Relation::Greater,
        ComparisonOperator::LessThan => relation == Relation::Less,
        ComparisonOperator::GreaterThanEqualTo => relation == Relation::Greater || relation
            == Relation::Equal,
        ComparisonOperator::LessThanEqualTo => relation == Relation::Less || relation
            == Relation::Equal,
    }
}

/// Whether a condition holds of the facts, read in an array context.
///
/// A single condition compares the values of its two operands, where a
/// missing value equals a missing value and is less than every present one.
/// A group folds the results of its conditions, all in the same context. An
/// array condition folds the results of its inner condition over the
/// positions of the collection, each in the context extended by an entry for
/// the collection's address and that position.
pub open spec fn condition_holds<F: GetFact>(
    condition: Condition,
    facts: F,
    context: Seq<(Seq<char>, int)>,
) -> bool
    decreases condition,
{
    match condition {
        Condition::Single(single) => comparison_holds(
            single.operator,
            optional_relation(
                operand_value(single.values.0, facts, context),
                operand_value(single.values.1, facts, context),
            ),
        ),
        Condition::Group(group) => match group.operator {
            AggregationOperator::Every => forall|i: int|
                0 <= i < group.conditions@.len() ==> condition_holds(
                    #[trigger] group.conditions@[i],
                    facts,
                    context,
                ),
            AggregationOperator::Any => exists|i: int|
                0 <= i < group.conditions@.len() && condition_holds(
                    #[trigger] group.conditions@[i],
                    facts,
                    context,
                ),
            AggregationOperator::NoneOf => forall|i: int|
                0 <= i < group.conditions@.len() ==> !condition_holds(
                    #[trigger] group.conditions@[i],
                    facts,
                    context,
                ),
        },
        Condition::Array(array) => {
            let address = array.array.address@;
            let len = facts.array_len_at(address, context);
            match array.operator {
                AggregationOperator::Every => forall|i: int|
                    0 <= i < len ==> condition_holds(
                        *array.condition,
                        facts,
                        #[trigger] item_entries(context, address, i),
                    ),
                AggregationOperator::Any => exists|i: int|
                    0 <= i < len && condition_holds(
                        *array.condition,
                        facts,
                        #[trigger] item_entries(context, address, i),
                    ),
                AggregationOperator::NoneOf => forall|i: int|
                    0 <= i < len ==> !condition_holds(
                        *array.condition,
                        facts,
                        #[trigger] item_entries(context, address, i),
                    ),
            }
        },
    }
}

/// A comparison for equality holds of two operands whose values are equal
/// under the value model.
pub proof fn lemma_equals_holds_of_equal_values<F: GetFact>(
    single: SingleCondition,
    facts: F,
    context: Seq<(Seq<char>, int)>,
)
    requires
        single.operator is Equals,
        optional_relation(
            operand_value(single.values.0, facts, context),
            operand_value(single.values.1, facts, context),
        ) == Relation::Equal,
    ensures
        condition_holds(Condition::Single(single), facts, context),
{
}

/// A group without conditions holds under `Every` and `NoneOf`, and does not
/// hold under `Any`.
pub proof fn lemma_empty_group<F: GetFact>(
    group: ConditionGroup,
    facts: F,
    context: Seq<(Seq<char>, int)>,
)
    requires
        group.conditions@.len() == 0,
    ensures
        condition_holds(Condition::Group(group), facts, context) == !(group.operator is Any),
{
}

/// An array condition over a collection without elements, or over an address
/// that names no collection, holds under `Every` and `NoneOf`, and does not
/// hold under `Any`.
pub proof fn lemma_empty_array<F: GetFact>(
    array: ArrayCondition,
    facts: F,
    context: Seq<(Seq<char>, int)>,
)
    requires
        facts.array_len_at(array.array.address@, context) <= 0,
    ensures
        condition_holds(Condition::Array(array), facts, context) == !(array.operator is Any),
{
}

/// Over the same conditions, a group holds under `NoneOf` exactly when it
/// does not hold under `Any`.
pub proof fn lemma_none_of_is_not_any<F: GetFact>(
    none_of: ConditionGroup,
    any: ConditionGroup,
    facts: F,
    context: Seq<(Seq<char>, int)>,
)
    requires
        none_of.operator is NoneOf,
        any.operator is Any,
        none_of.conditions@ == any.conditions@,
    ensures
        condition_holds(Condition::Group(none_of), facts, context) == !condition_holds(
            Condition::Group(any),
            facts,
            context,
        ),
{
}

/// Over the same collection and inner condition, an array condition holds
/// under `NoneOf` exactly when it does not hold under `Any`.
pub proof fn lemma_array_none_of_is_not_any<F: GetFact>(
    none_of: ArrayCondition,
    any: ArrayCondition,
    facts: F,
    context: Seq<(Seq<char>, int)>,
)
    requires
        none_of.operator is NoneOf,
        any.operator is Any,
        none_of.array.address@ == any.array.address@,
        *none_of.condition == *any.condition,
    ensures
        condition_holds(Condition::Array(none_of), facts, context) == !condition_holds(
            Condition::Array(any),
            facts,
            context,
        ),
{
}

/// Evaluates a condition against the facts, outside any array.
pub fn evaluate<F: GetFact>(condition: &Condition, facts: &F) -> (result: bool)
    ensures
        result == condition_holds(*condition, *facts, Seq::<(Seq<char>, int)>::empty()),
{
    let array_context = ArrayContext::new();
    evaluate_with_array_context(condition, facts, &array_context)
}

/// Evaluates a condition against the facts, read in the given array context.
pub fn evaluate_with_array_context<F: GetFact>(
    condition: &Condition,
    facts: &F,
    array_context: &ArrayContext,
) -> (result: bool)
    ensures
        result == condition_holds(*condition, *facts, array_context@),
    decreases condition,
{
    match condition {
        Condition::Single(condition) => evaluate_single_condition(condition, facts, array_context),
        Condition::Group(condition_group) => evaluate_condition_group(
            condition_group,
            facts,
            array_context,
        ),
        Condition::Array(condition) => evaluate_array_condition(condition, facts, array_context),
    }
}

/// Whether a comparison holds of two values that stand in `relation`.
pub fn test_relation(operator: ComparisonOperator, relation: Relation) -> (holds: bool)
    ensures
        holds == comparison_holds(operator, relation),
{
    match operator {
        ComparisonOperator::Equals => match relation {
            Relation::Equal => true,
            _ => false,
        },
        ComparisonOperator::GreaterThan => match relation {
            Relation::Greater => true,
            _ => false,
        },
        ComparisonOperator::LessThan => match relation {
            Relation::Less => true,
            _ => false,
        },
        ComparisonOperator::GreaterThanEqualTo => match relation {
            Relation::Greater => true,
            Relation::Equal => true,
            _ => false,
        },
        ComparisonOperator::LessThanEqualTo => match relation {
            Relation::Less => true,
            Relation::Equal => true,
            _ => false,
        },
    }
}

/// Compares the values of the two operands of a single condition.
fn evaluate_single_condition<F: GetFact>(
    condition: &SingleCondition,
    facts: &F,
    array_context: &ArrayContext,
) -> (result: bool)
    ensures
        result == condition_holds(Condition::Single(*condition), *facts, array_context@),
{
    let a = get_fact_from_condition_value(&condition.values.0, facts, array_context);
    let b = get_fact_from_condition_value(&condition.values.1, facts, array_context);
    test_relation(condition.operator, compare_optional(&a, &b))
}

/// Folds the results of the conditions of a group, stopping as soon as the
/// result is settled.
fn evaluate_condition_group<F: GetFact>(
    condition_group: &ConditionGroup,
    facts: &F,
    array_context: &ArrayContext,
) -> (result: bool)
    ensures
        result == condition_holds(Condition::Group(*condition_group), *facts, array_context@),
    decreases condition_group,
{
    let conditions = &condition_group.conditions;
    let mut i: usize = 0;
    while i < conditions.len()
        invariant
            i <= conditions.len(),
            conditions == &condition_group.conditions,
            match condition_group.operator {
                AggregationOperator::Every => forall|j: int|
                    0 <= j < i ==> condition_holds(#[trigger] conditions@[j], *facts, array_context@),
                _ => forall|j: int|
                    0 <= j < i ==> !condition_holds(#[trigger] conditions@[j], *facts, array_context@),
            },
        decreases conditions.len() - i,
    {
        let item_result = evaluate_with_array_context(&conditions[i], facts, array_context);
        match condition_group.operator {
            AggregationOperator::Every => {
                if !item_result {
                    return false;
                }
            },
            AggregationOperator::Any => {
                if item_result {
                    return true;
                }
            },
            AggregationOperator::NoneOf => {
                if item_result {
                    return false;
                }
            },
        }
        i += 1;
    }
    match condition_group.operator {
        AggregationOperator::Every => true,
        AggregationOperator::Any => false,
        AggregationOperator::NoneOf => true,
    }
}

/// Folds the results of the inner condition over the positions of the
/// collection, stopping as soon as the result is settled.
fn evaluate_array_condition<F: GetFact>(
    condition: &ArrayCondition,
    facts: &F,
    array_context: &ArrayContext,
) -> (result: bool)
    ensures
        result == condition_holds(Condition::Array(*condition), *facts, array_context@),
    decreases condition,
{
    let address = condition.array.address.as_str();
    let array_len = facts.get_array_len(address, array_context);
    let mut i: i64 = 0;
    while i < array_len
        invariant
            0 <= i,
            i <= array_len || array_len < 0,
            address@ == condition.array.address@,
            array_len == facts.array_len_at(address@, array_context@),
            match condition.operator {
                AggregationOperator::Every => forall|j: int|
                    0 <= j < i ==> condition_holds(
                        *condition.condition,
                        *facts,
                        #[trigger] item_entries(array_context@, address@, j),
                    ),
                _ => forall|j: int|
                    0 <= j < i ==> !condition_holds(
                        *condition.condition,
                        *facts,
                        #[trigger] item_entries(array_context@, address@, j),
                    ),
            },
        decreases array_len - i,
    {
        let item_context = array_context.for_item(address, i);
        let item_result = evaluate_with_array_context(&condition.condition, facts, &item_context);
        match condition.operator {
            AggregationOperator::Every => {
                if !item_result {
                    return false;
                }
            },
            AggregationOperator::Any => {
                if item_result {
                    return true;
                }
            },
            AggregationOperator::NoneOf => {
                if item_result {
                    return false;
                }
            },
        }
        i += 1;
    }
    match condition.operator {
        AggregationOperator::Every => true,
        AggregationOperator::Any => false,
        AggregationOperator::NoneOf => true,
    }
}

} // verus!
