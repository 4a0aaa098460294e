//! The evaluation of the built-in functions.

use crate::conditions::functions::Fn;
use crate::conditions::ConditionValue;
use crate::evaluation::{
    function_value, get_fact_from_condition_value, operand_value, operand_values,
};
use crate::facts::binary64::{is_nan, Relation};
use crate::facts::context::ArrayContext;
use crate::facts::{
    compare_optional, fact_relation, lemma_relation_converse, optional_model, optional_relation,
    text_relation, FactModel, FactValue, GetFact, NumberFact,
};
use vstd::prelude::*;

verus! {

/// Whether a value is the truth value true. A missing value and a value of
/// another category are not.
pub open spec fn is_true(value: Option<FactModel>) -> bool {
    value == Some(FactModel::Boolean(true))
}

/// Whether every value is the truth value true.
pub open spec fn all_true(values: Seq<Option<FactModel>>) -> bool {
    forall|i: int| 0 <= i < values.len() ==> is_true(#[trigger] values[i])
}

/// Whether some value is the truth value true.
pub open spec fn some_true(values: Seq<Option<FactModel>>) -> bool {
    exists|i: int| 0 <= i < values.len() && is_true(#[trigger] values[i])
}

/// The negation of a truth value; nothing for a missing value or a value of
/// another category.
pub open spec fn negation(value: Option<FactModel>) -> Option<FactModel> {
    match value {
        Some(FactModel::Boolean(b)) => Some(FactModel::Boolean(!b)),
        _ => None,
    }
}

/// The least of the present values: going through the values in order, a
/// present value replaces the one kept so far when it is strictly less.
/// Missing values are passed over; with no present value there is none.
pub open spec fn least(values: Seq<Option<FactModel>>) -> Option<FactModel>
    decreases values.len(),
{
    if values.len() == 0 {
        None
    } else {
        let kept = least(values.drop_last());
        match (values.last(), kept) {
            (None, _) => kept,
            (Some(v), None) => Some(v),
            (Some(v), Some(k)) => if fact_relation(v, k) == Relation::Less {
                Some(v)
            } else {
                Some(k)
            },
        }
    }
}

/// The greatest of the present values: going through the values in order, a
/// present value replaces the one kept so far when it is strictly greater.
/// Missing values are passed over; with no present value there is none.
pub open spec fn greatest(values: Seq<Option<FactModel>>) -> Option<FactModel>
    decreases values.len(),
{
    if values.len() == 0 {
        None
    } else {
        let kept = greatest(values.drop_last());
        match (values.last(), kept) {
            (None, _) => kept,
            (Some(v), None) => Some(v),
            (Some(v), Some(k)) => if fact_relation(v, k) == Relation::Greater {
                Some(v)
            } else {
                Some(k)
            },
        }
    }
}

/// Whether the first value is greater than or equal to every value, itself
/// included. A missing value counts as less than every present one.
pub open spec fn first_is_greatest(values: Seq<Option<FactModel>>) -> bool {
    forall|i: int|
        0 <= i < values.len() ==> {
            let r = optional_relation(values[0], #[trigger] values[i]);
            r == Relation::Greater || r == Relation::Equal
        }
}

/// Whether the first value is less than or equal to every value, itself
/// included. A missing value counts as less than every present one.
pub open spec fn first_is_least(values: Seq<Option<FactModel>>) -> bool {
    forall|i: int|
        0 <= i < values.len() ==> {
            let r = optional_relation(values[0], #[trigger] values[i]);
            r == Relation::Less || r == Relation::Equal
        }
}

/// Whether every value equals the first. Two missing values are equal.
pub open spec fn all_equal_first(values: Seq<Option<FactModel>>) -> bool {
    forall|i: int|
        0 <= i < values.len() ==> optional_relation(values[0], #[trigger] values[i])
            == Relation::Equal
}

/// Whether a value is present.
pub open spec fn is_present(value: Option<FactModel>) -> bool {
    value is Some
}

/// Whether a value is a binary64 pattern that is not a number. Such a value
/// is unordered even with itself.
pub open spec fn is_not_a_number(value: Option<FactModel>) -> bool {
    match value {
        Some(FactModel::Number(NumberFact::Float(bits))) => is_nan(bits),
        _ => false,
    }
}

/// A text equals itself.
pub proof fn lemma_text_equals_itself(s: Seq<char>)
    ensures
        text_relation(s, s) == Relation::Equal,
    decreases s.len(),
{
    if s.len() > 0 {
        lemma_text_equals_itself(s.skip(1));
    }
}

/// Every value equals itself, a missing one too, except a binary64 pattern
/// that is not a number.
pub proof fn lemma_value_equals_itself(value: Option<FactModel>)
    requires
        !is_not_a_number(value),
    ensures
        optional_relation(value, value) == Relation::Equal,
{
    match value {
        Some(FactModel::Text(s)) => {
            lemma_text_equals_itself(s);
        },
        _ => {},
    }
}

/// `Equal` applied to the same operand twice is true, whatever the operand
/// resolves to, unless that is a binary64 pattern that is not a number.
pub proof fn lemma_equal_of_operand_with_itself<F: GetFact>(
    operands: Vec<ConditionValue>,
    operand: ConditionValue,
    facts: F,
    context: Seq<(Seq<char>, int)>,
)
    requires
        operands@ == seq![operand, operand],
        !is_not_a_number(operand_value(operand, facts, context)),
    ensures
        function_value(Fn::Equal(operands), facts, context) == Some(FactModel::Boolean(true)),
{
    lemma_value_equals_itself(operand_value(operand, facts, context));
}

/// Whether a value is present and a truth value.
pub open spec fn is_truth_value(value: Option<FactModel>) -> bool {
    match value {
        Some(FactModel::Boolean(_)) => true,
        _ => false,
    }
}

/// `GreaterThan`, `LessThan` and `Equal` have no value with fewer than two
/// operands; with two or more their value is a truth value.
pub proof fn lemma_comparison_needs_two_operands<F: GetFact>(
    operands: Vec<ConditionValue>,
    facts: F,
    context: Seq<(Seq<char>, int)>,
)
    ensures
        operands@.len() < 2 ==> function_value(Fn::GreaterThan(operands), facts, context) is None,
        operands@.len() < 2 ==> function_value(Fn::LessThan(operands), facts, context) is None,
        operands@.len() < 2 ==> function_value(Fn::Equal(operands), facts, context) is None,
        operands@.len() >= 2 ==> is_truth_value(
            function_value(Fn::GreaterThan(operands), facts, context),
        ),
        operands@.len() >= 2 ==> is_truth_value(
            function_value(Fn::LessThan(operands), facts, context),
        ),
        operands@.len() >= 2 ==> is_truth_value(function_value(Fn::Equal(operands), facts, context)),
{
}

/// `And` and `Or` always have a value, and it is a truth value.
pub proof fn lemma_and_or_are_truth_values<F: GetFact>(
    operands: Vec<ConditionValue>,
    facts: F,
    context: Seq<(Seq<char>, int)>,
)
    ensures
        is_truth_value(function_value(Fn::And(operands), facts, context)),
        is_truth_value(function_value(Fn::Or(operands), facts, context)),
{
}

/// The least value is that of the present values alone: missing values
/// change nothing, wherever they stand.
pub proof fn lemma_least_ignores_missing(values: Seq<Option<FactModel>>)
    ensures
        least(values) == least(values.filter(|v: Option<FactModel>| is_present(v))),
    decreases values.len(),
{
    reveal(Seq::filter);
    let present = |v: Option<FactModel>| is_present(v);
    if values.len() > 0 {
        let rest = values.drop_last();
        lemma_least_ignores_missing(rest);
        if is_present(values.last()) {
            let kept = rest.filter(present);
            assert(kept.push(values.last()).drop_last() =~= kept);
        }
    }
}

/// The greatest value is that of the present values alone: missing values
/// change nothing, wherever they stand.
pub proof fn lemma_greatest_ignores_missing(values: Seq<Option<FactModel>>)
    ensures
        greatest(values) == greatest(values.filter(|v: Option<FactModel>| is_present(v))),
    decreases values.len(),
{
    reveal(Seq::filter);
    let present = |v: Option<FactModel>| is_present(v);
    if values.len() > 0 {
        let rest = values.drop_last();
        lemma_greatest_ignores_missing(rest);
        if is_present(values.last()) {
            let kept = rest.filter(present);
            assert(kept.push(values.last()).drop_last() =~= kept);
        }
    }
}

/// The least and the greatest value are missing exactly when every value
/// is; otherwise each is one of the present values.
pub proof fn lemma_extremes_are_present_values(values: Seq<Option<FactModel>>)
    ensures
        least(values) is None <==> forall|i: int| 0 <= i < values.len() ==> values[i] is None,
        greatest(values) is None <==> forall|i: int| 0 <= i < values.len() ==> values[i] is None,
        least(values) is Some ==> exists|i: int| 0 <= i < values.len() && values[i] == least(values),
        greatest(values) is Some ==> exists|i: int|
            0 <= i < values.len() && values[i] == greatest(values),
    decreases values.len(),
{
    if values.len() > 0 {
        let rest = values.drop_last();
        let n = values.len() - 1;
        lemma_extremes_are_present_values(rest);
        assert(forall|i: int| 0 <= i < n ==> rest[i] == values[i]);
        if values.last() is None {
            if !(forall|i: int| 0 <= i < rest.len() ==> rest[i] is None) {
                let i = choose|i: int| 0 <= i < rest.len() && !(rest[i] is None);
                assert(values[i] == rest[i]);
            }
        } else {
            assert(!(values[n] is None));
        }
        if least(values) is Some {
            if least(values) == values.last() {
                assert(values[n] == least(values));
            } else {
                let i = choose|i: int| 0 <= i < rest.len() && rest[i] == least(rest);
                assert(values[i] == least(values));
            }
        }
        if greatest(values) is Some {
            if greatest(values) == values.last() {
                assert(values[n] == greatest(values));
            } else {
                let i = choose|i: int| 0 <= i < rest.len() && rest[i] == greatest(rest);
                assert(values[i] == greatest(values));
            }
        }
    }
}

/// Whether `a` is less than or equal to `b`.
pub open spec fn precedes(a: Option<FactModel>, b: Option<FactModel>) -> bool {
    optional_relation(a, b) == Relation::Less || optional_relation(a, b) == Relation::Equal
}

/// Whether the present values form a chain: any two of them are ordered or
/// equal, and the order between them is transitive. Integers do, and so do
/// texts; a pattern that is not a number, values of different categories, or
/// large integers beside the binary64 number that they are promoted to, do
/// not.
pub open spec fn is_chain(values: Seq<Option<FactModel>>) -> bool {
    &&& forall|i: int, j: int|
        0 <= i < values.len() && 0 <= j < values.len() && values[i] is Some && values[j] is Some
            ==> #[trigger] precedes(values[i], values[j]) || precedes(values[j], values[i])
    &&& forall|i: int, j: int, k: int|
        0 <= i < values.len() && 0 <= j < values.len() && 0 <= k < values.len() && values[i] is Some
            && values[j] is Some && values[k] is Some && #[trigger] precedes(values[i], values[j])
            && #[trigger] precedes(values[j], values[k]) ==> precedes(values[i], values[k])
}

/// Among values that form a chain, the least is less than or equal to every
/// present value, and every present value is less than or equal to the
/// greatest.
pub proof fn lemma_extremes_bound_a_chain(values: Seq<Option<FactModel>>)
    requires
        is_chain(values),
    ensures
        forall|i: int|
            0 <= i < values.len() && values[i] is Some ==> precedes(least(values), #[trigger] values[i]),
        forall|i: int|
            0 <= i < values.len() && values[i] is Some ==> precedes(
                #[trigger] values[i],
                greatest(values),
            ),
    decreases values.len(),
{
    if values.len() > 0 {
        let rest = values.drop_last();
        let n = values.len() - 1;
        let last = values[n];
        assert(forall|i: int| 0 <= i < n ==> rest[i] == values[i]);
        assert(is_chain(rest)) by {
            assert forall|i: int, j: int|
                0 <= i < rest.len() && 0 <= j < rest.len() && rest[i] is Some && rest[j]
                    is Some implies #[trigger] precedes(rest[i], rest[j]) || precedes(
                rest[j],
                rest[i],
            ) by {
                assert(precedes(values[i], values[j]) || precedes(values[j], values[i]));
            }
            assert forall|i: int, j: int, k: int|
                0 <= i < rest.len() && 0 <= j < rest.len() && 0 <= k < rest.len() && rest[i] is Some
                    && rest[j] is Some && rest[k] is Some && #[trigger] precedes(rest[i], rest[j])
                    && #[trigger] precedes(rest[j], rest[k]) implies precedes(rest[i], rest[k]) by {
                assert(precedes(values[i], values[j]) && precedes(values[j], values[k]));
            }
        }
        lemma_extremes_bound_a_chain(rest);
        lemma_extremes_are_present_values(rest);
        if last is Some {
            assert(precedes(values[n], values[n]) || precedes(values[n], values[n]));
            if least(rest) is Some {
                let p = choose|p: int| 0 <= p < rest.len() && rest[p] == least(rest);
                assert(values[p] == least(rest));
                lemma_relation_converse(last, least(rest));
                assert(precedes(values[n], values[p]) || precedes(values[p], values[n]));
                assert forall|i: int| 0 <= i < values.len() && values[i] is Some implies precedes(
                    least(values),
                    #[trigger] values[i],
                ) by {
                    if i < n {
                        assert(precedes(least(rest), rest[i]));
                        if least(values) == last {
                            assert(precedes(values[n], values[p]) && precedes(values[p], values[i]));
                        }
                    }
                }
            }
            if greatest(rest) is Some {
                let q = choose|q: int| 0 <= q < rest.len() && rest[q] == greatest(rest);
                assert(values[q] == greatest(rest));
                lemma_relation_converse(last, greatest(rest));
                assert(precedes(values[n], values[q]) || precedes(values[q], values[n]));
                assert forall|i: int| 0 <= i < values.len() && values[i] is Some implies precedes(
                    #[trigger] values[i],
                    greatest(values),
                ) by {
                    if i < n {
                        assert(precedes(rest[i], greatest(rest)));
                        if greatest(values) == last {
                            assert(precedes(values[i], values[q]) && precedes(values[q], values[n]));
                        }
                    }
                }
            }
        } else {
            assert forall|i: int| 0 <= i < values.len() && values[i] is Some implies precedes(
                least(values),
                #[trigger] values[i],
            ) && precedes(values[i], greatest(values)) by {
                assert(precedes(least(rest), rest[i]));
                assert(precedes(rest[i], greatest(rest)));
            }
        }
    }
}

/// Present values that are all integers form a chain.
pub proof fn lemma_integers_form_a_chain(values: Seq<Option<FactModel>>)
    requires
        forall|i: int|
            0 <= i < values.len() && values[i] is Some ==> (#[trigger] values[i])
                matches Some(FactModel::Number(NumberFact::Integer(_))),
    ensures
        is_chain(values),
{
}

/// Applies a function to its operands.
pub fn evaluate_fn<F: GetFact>(function: &Fn, facts: &F, array_context: &ArrayContext) -> (fact: Option<
    FactValue,
>)
    ensures
        optional_model(fact) == function_value(*function, *facts, array_context@),
    decreases function,
{
    match function {
        Fn::Min(values) => evaluate_min(values, facts, array_context),
        Fn::Max(values) => evaluate_max(values, facts, array_context),
        Fn::And(values) => evaluate_and(values, facts, array_context),
        Fn::Or(values) => evaluate_or(values, facts, array_context),
        Fn::Not(value) => evaluate_not(value, facts, array_context),
        Fn::GreaterThan(values) => evaluate_greater_than(values, facts, array_context),
        Fn::LessThan(values) => evaluate_less_than(values, facts, array_context),
        Fn::Equal(values) => evaluate_equal(values, facts, array_context),
    }
}

/// The least of the operands that have a value.
fn evaluate_min<F: GetFact>(values: &Vec<ConditionValue>, facts: &F, array_context: &ArrayContext) -> (fact:
    Option<FactValue>)
    ensures
        optional_model(fact) == least(operand_values(values@, *facts, array_context@)),
    decreases values,
{
    let ghost all = operand_values(values@, *facts, array_context@);
    let mut min_value: Option<FactValue> = None;
    let mut i: usize = 0;
    while i < values.len()
        invariant
            i <= values.len(),
            all == operand_values(values@, *facts, array_context@),
            optional_model(min_value) == least(all.take(i as int)),
        decreases values.len() - i,
    {
        let fact = get_fact_from_condition_value(&values[i], facts, array_context);
        proof {
            assert(all.take(i + 1).drop_last() =~= all.take(i as int));
            assert(all.take(i + 1).last() == optional_model(fact));
        }
        if fact.is_some() {
            let replace = match &min_value {
                None => true,
                Some(_) => match compare_optional(&fact, &min_value) {
                    Relation::Less => true,
                    _ => false,
                },
            };
            if replace {
                min_value = fact;
            }
        }
        i += 1;
    }
    assert(all.take(values.len() as int) =~= all);
    min_value
}

/// The greatest of the operands that have a value.
fn evaluate_max<F: GetFact>(values: &Vec<ConditionValue>, facts: &F, array_context: &ArrayContext) -> (fact:
    Option<FactValue>)
    ensures
        optional_model(fact) == greatest(operand_values(values@, *facts, array_context@)),
    decreases values,
{
    let ghost all = operand_values(values@, *facts, array_context@);
    let mut max_value: Option<FactValue> = None;
    let mut i: usize = 0;
    while i < values.len()
        invariant
            i <= values.len(),
            all == operand_values(values@, *facts, array_context@),
            optional_model(max_value) == greatest(all.take(i as int)),
        decreases values.len() - i,
    {
        let fact = get_fact_from_condition_value(&values[i], facts, array_context);
        proof {
            assert(all.take(i + 1).drop_last() =~= all.take(i as int));
            assert(all.take(i + 1).last() == optional_model(fact));
        }
        if fact.is_some() {
            let replace = match &max_value {
                None => true,
                Some(_) => match compare_optional(&fact, &max_value) {
                    Relation::Greater => true,
                    _ => false,
                },
            };
            if replace {
                max_value = fact;
            }
        }
        i += 1;
    }
    assert(all.take(values.len() as int) =~= all);
    max_value
}

/// Whether a resolved value is the truth value true.
fn holds_true(fact: &Option<FactValue>) -> (r: bool)
    ensures
        r == is_true(optional_model(*fact)),
{
    match fact {
        Some(FactValue::Boolean(value)) => *value,
        _ => false,
    }
}

/// Whether every operand is the truth value true; stops at the first that
/// is not.
fn evaluate_and<F: GetFact>(values: &Vec<ConditionValue>, facts: &F, array_context: &ArrayContext) -> (fact:
    Option<FactValue>)
    ensures
        optional_model(fact) == Some(
            FactModel::Boolean(all_true(operand_values(values@, *facts, array_context@))),
        ),
    decreases values,
{
    let ghost all = operand_values(values@, *facts, array_context@);
    let mut i: usize = 0;
    while i < values.len()
        invariant
            i <= values.len(),
            all == operand_values(values@, *facts, array_context@),
            forall|j: int| 0 <= j < i ==> is_true(#[trigger] all[j]),
        decreases values.len() - i,
    {
        let fact = get_fact_from_condition_value(&values[i], facts, array_context);
        assert(all[i as int] == optional_model(fact));
        if !holds_true(&fact) {
            return Some(FactValue::Boolean(false));
        }
        i += 1;
    }
    Some(FactValue::Boolean(true))
}

/// Whether some operand is the truth value true; stops at the first that is.
fn evaluate_or<F: GetFact>(values: &Vec<ConditionValue>, facts: &F, array_context: &ArrayContext) -> (fact:
    Option<FactValue>)
    ensures
        optional_model(fact) == Some(
            FactModel::Boolean(some_true(operand_values(values@, *facts, array_context@))),
        ),
    decreases values,
{
    let ghost all = operand_values(values@, *facts, array_context@);
    let mut i: usize = 0;
    while i < values.len()
        invariant
            i <= values.len(),
            all == operand_values(values@, *facts, array_context@),
            forall|j: int| 0 <= j < i ==> !is_true(#[trigger] all[j]),
        decreases values.len() - i,
    {
        let fact = get_fact_from_condition_value(&values[i], facts, array_context);
        assert(all[i as int] == optional_model(fact));
        if holds_true(&fact) {
            return Some(FactValue::Boolean(true));
        }
        i += 1;
    }
    Some(FactValue::Boolean(false))
}

/// The negation of the operand, where it is a truth value.
fn evaluate_not<F: GetFact>(value: &Box<ConditionValue>, facts: &F, array_context: &ArrayContext) -> (fact:
    Option<FactValue>)
    ensures
        optional_model(fact) == negation(operand_value(**value, *facts, array_context@)),
    decreases value, 1nat,
{
    let fact = get_fact_from_condition_value(&**value, facts, array_context);
    match fact {
        Some(FactValue::Boolean(value)) => Some(FactValue::Boolean(!value)),
        _ => None,
    }
}

/// Whether the first operand is greater than or equal to every operand.
fn evaluate_greater_than<F: GetFact>(
    values: &Vec<ConditionValue>,
    facts: &F,
    array_context: &ArrayContext,
) -> (fact: Option<FactValue>)
    ensures
        optional_model(fact) == (if values@.len() < 2 {
            None
        } else {
            Some(FactModel::Boolean(first_is_greatest(operand_values(values@, *facts, array_context@))))
        }),
    decreases values,
{
    if values.len() < 2 {
        return None;
    }
    let ghost all = operand_values(values@, *facts, array_context@);
    let first_fact = get_fact_from_condition_value(&values[0], facts, array_context);
    let mut i: usize = 0;
    while i < values.len()
        invariant
            i <= values.len(),
            values.len() >= 2,
            all == operand_values(values@, *facts, array_context@),
            all[0] == optional_model(first_fact),
            forall|j: int|
                0 <= j < i ==> {
                    let r = optional_relation(all[0], #[trigger] all[j]);
                    r == Relation::Greater || r == Relation::Equal
                },
        decreases values.len() - i,
    {
        let fact = get_fact_from_condition_value(&values[i], facts, array_context);
        assert(all[i as int] == optional_model(fact));
        match compare_optional(&first_fact, &fact) {
            Relation::Greater => {},
            Relation::Equal => {},
            _ => {
                return Some(FactValue::Boolean(false));
            },
        }
        i += 1;
    }
    Some(FactValue::Boolean(true))
}

/// Whether the first operand is less than or equal to every operand.
fn evaluate_less_than<F: GetFact>(
    values: &Vec<ConditionValue>,
    facts: &F,
    array_context: &ArrayContext,
) -> (fact: Option<FactValue>)
    ensures
        optional_model(fact) == (if values@.len() < 2 {
            None
        } else {
            Some(FactModel::Boolean(first_is_least(operand_values(values@, *facts, array_context@))))
        }),
    decreases values,
{
    if values.len() < 2 {
        return None;
    }
    let ghost all = operand_values(values@, *facts, array_context@);
    let first_fact = get_fact_from_condition_value(&values[0], facts, array_context);
    let mut i: usize = 0;
    while i < values.len()
        invariant
            i <= values.len(),
            values.len() >= 2,
            all == operand_values(values@, *facts, array_context@),
            all[0] == optional_model(first_fact),
            forall|j: int|
                0 <= j < i ==> {
                    let r = optional_relation(all[0], #[trigger] all[j]);
                    r == Relation::Less || r == Relation::Equal
                },
        decreases values.len() - i,
    {
        let fact = get_fact_from_condition_value(&values[i], facts, array_context);
        assert(all[i as int] == optional_model(fact));
        match compare_optional(&first_fact, &fact) {
            Relation::Less => {},
            Relation::Equal => {},
            _ => {
                return Some(FactValue::Boolean(false));
            },
        }
        i += 1;
    }
    Some(FactValue::Boolean(true))
}

/// Whether every operand equals the first.
fn evaluate_equal<F: GetFact>(values: &Vec<ConditionValue>, facts: &F, array_context: &ArrayContext) -> (fact:
    Option<FactValue>)
    ensures
        optional_model(fact) == (if values@.len() < 2 {
            None
        } else {
            Some(FactModel::Boolean(all_equal_first(operand_values(values@, *facts, array_context@))))
        }),
    decreases values,
{
    if values.len() < 2 {
        return None;
    }
    let ghost all = operand_values(values@, *facts, array_context@);
    let first_fact = get_fact_from_condition_value(&values[0], facts, array_context);
    let mut i: usize = 0;
    while i < values.len()
        invariant
            i <= values.len(),
            values.len() >= 2,
            all == operand_values(values@, *facts, array_context@),
            all[0] == optional_model(first_fact),
            forall|j: int|
                0 <= j < i ==> optional_relation(all[0], #[trigger] all[j]) == Relation::Equal,
        decreases values.len() - i,
    {
        let fact = get_fact_from_condition_value(&values[i], facts, array_context);
        assert(all[i as int] == optional_model(fact));
        match compare_optional(&first_fact, &fact) {
            Relation::Equal => {},
            _ => {
                return Some(FactValue::Boolean(false));
            },
        }
        i += 1;
    }
    Some(FactValue::Boolean(true))
}

} // verus!
