use engine::{
    conditions::{
        operators::{AggregationOperator, ComparisonOperator},
        Condition, ConditionGroup, ConditionValue, ReferenceValue, SingleCondition,
    },
    evaluation,
    facts::json_facts::JsonFacts,
};
use engine::facts::json_facts::{JsonMember, JsonNumber, JsonValue};

#[allow(dead_code)]
fn integer(value: i64) -> JsonValue {
    JsonValue::Number(JsonNumber::Integer(value))
}

#[allow(dead_code)]
fn float(value: f64) -> JsonValue {
    JsonValue::Number(JsonNumber::Float(value.to_bits()))
}

#[allow(dead_code)]
fn member(key: &str, value: JsonValue) -> JsonMember {
    JsonMember {
        key: key.to_string(),
        value,
    }
}

#[allow(dead_code)]
fn object(members: Vec<JsonMember>) -> JsonValue {
    JsonValue::Object(members)
}

#[allow(dead_code)]
fn array(items: Vec<JsonValue>) -> JsonValue {
    JsonValue::Array(items)
}

#[test]
fn group_condition_every_true() {
    let facts = build_facts();

    let single_condition_one = Condition::Single(SingleCondition {
        operator: ComparisonOperator::Equals,
        values: (
            ConditionValue::Json(ReferenceValue {
                address: "one".to_string(),
            }),
            ConditionValue::Json(ReferenceValue {
                address: "one".to_string(),
            }),
        ),
    });
    let single_condition_two = Condition::Single(SingleCondition {
        operator: ComparisonOperator::LessThan,
        values: (
            ConditionValue::Json(ReferenceValue {
                address: "one".to_string(),
            }),
            ConditionValue::Json(ReferenceValue {
                address: "two_point_one".to_string(),
            }),
        ),
    });

    let condition_group = ConditionGroup {
        conditions: vec![single_condition_one, single_condition_two],
        operator: AggregationOperator::Every,
    };

    let condition = Condition::Group(condition_group);
    let result = evaluation::evaluate(&condition, &facts);
    assert!(result)
}

#[test]
fn group_condition_every_false() {
    let facts = build_facts();

    let single_condition_one = Condition::Single(SingleCondition {
        operator: ComparisonOperator::Equals,
        values: (
            ConditionValue::Json(ReferenceValue {
                address: "one".to_string(),
            }),
            ConditionValue::Json(ReferenceValue {
                address: "one".to_string(),
            }),
        ),
    });
    let single_condition_two = Condition::Single(SingleCondition {
        operator: ComparisonOperator::LessThan,
        values: (
            ConditionValue::Json(ReferenceValue {
                address: "one".to_string(),
            }),
            ConditionValue::Json(ReferenceValue {
                address: "one".to_string(),
            }),
        ),
    });

    let condition_group = ConditionGroup {
        conditions: vec![single_condition_one, single_condition_two],
        operator: AggregationOperator::Every,
    };

    let condition = Condition::Group(condition_group);
    let result = evaluation::evaluate(&condition, &facts);
    assert!(!result)
}

#[test]
fn group_condition_any_true() {
    let facts = build_facts();

    let single_condition_one = Condition::Single(SingleCondition {
        operator: ComparisonOperator::Equals,
        values: (
            ConditionValue::Json(ReferenceValue {
                address: "one".to_string(),
            }),
            ConditionValue::Json(ReferenceValue {
                address: "one".to_string(),
            }),
        ),
    });
    let single_condition_two = Condition::Single(SingleCondition {
        operator: ComparisonOperator::LessThan,
        values: (
            ConditionValue::Json(ReferenceValue {
                address: "one".to_string(),
            }),
            ConditionValue::Json(ReferenceValue {
                address: "two_point_one".to_string(),
            }),
        ),
    });

    let condition_group = ConditionGroup {
        conditions: vec![single_condition_one, single_condition_two],
        operator: AggregationOperator::Any,
    };

    let condition = Condition::Group(condition_group);
    let result = evaluation::evaluate(&condition, &facts);
    assert!(result)
}

#[test]
fn group_condition_any_false() {
    let facts = build_facts();

    let single_condition_one = Condition::Single(SingleCondition {
        operator: ComparisonOperator::Equals,
        values: (
            ConditionValue::Json(ReferenceValue {
                address: "two_point_one".to_string(),
            }),
            ConditionValue::Json(ReferenceValue {
                address: "one".to_string(),
            }),
        ),
    });
    let single_condition_two = Condition::Single(SingleCondition {
        operator: ComparisonOperator::LessThan,
        values: (
            ConditionValue::Json(ReferenceValue {
                address: "two_point_one".to_string(),
            }),
            ConditionValue::Json(ReferenceValue {
                address: "one".to_string(),
            }),
        ),
    });

    let condition_group = ConditionGroup {
        conditions: vec![single_condition_one, single_condition_two],
        operator: AggregationOperator::Any,
    };

    let condition = Condition::Group(condition_group);
    let result = evaluation::evaluate(&condition, &facts);
    assert!(!result)
}

#[test]
fn group_condition_none_true() {
    let facts = build_facts();

    let single_condition_one = Condition::Single(SingleCondition {
        operator: ComparisonOperator::Equals,
        values: (
            ConditionValue::Json(ReferenceValue {
                address: "two_point_one".to_string(),
            }),
            ConditionValue::Json(ReferenceValue {
                address: "one".to_string(),
            }),
        ),
    });
    let single_condition_two = Condition::Single(SingleCondition {
        operator: ComparisonOperator::LessThan,
        values: (
            ConditionValue::Json(ReferenceValue {
                address: "one".to_string(),
            }),
            ConditionValue::Json(ReferenceValue {
                address: "one".to_string(),
            }),
        ),
    });

    let condition_group = ConditionGroup {
        conditions: vec![single_condition_one, single_condition_two],
        operator: AggregationOperator::NoneOf,
    };

    let condition = Condition::Group(condition_group);
    let result = evaluation::evaluate(&condition, &facts);
    assert!(result)
}

#[test]
fn group_condition_none_false() {
    let facts = build_facts();

    let single_condition_one = Condition::Single(SingleCondition {
        operator: ComparisonOperator::Equals,
        values: (
            ConditionValue::Json(ReferenceValue {
                address: "one".to_string(),
            }),
            ConditionValue::Json(ReferenceValue {
                address: "one".to_string(),
            }),
        ),
    });

    let condition_group = ConditionGroup {
        conditions: vec![single_condition_one],
        operator: AggregationOperator::NoneOf,
    };

    let condition = Condition::Group(condition_group);
    let result = evaluation::evaluate(&condition, &facts);
    assert!(!result)
}

fn build_facts() -> JsonFacts {
    let data = object(vec![member("one", integer(1)), member("two_point_one", float(2.1))]);

    JsonFacts::new(data)
}
