use engine::{
    conditions::{
        operators::ComparisonOperator, Condition, ConditionValue, ReferenceValue, SingleCondition,
    },
    evaluation,
    facts::{json_facts::JsonFacts, FactValue, NumberFact},
};
use engine::facts::json_facts::{JsonMember, JsonNumber, JsonValue};

#[allow(dead_code)]
fn integer(value: i64) -> JsonValue {
    JsonValue::Number(JsonNumber::Integer(value))
}

#[allow(dead_code)]
fn float(value: f64) -> JsonValue {
    JsonValue::Number(JsonNumber::Float(value.to_bits()))
}

#[allow(dead_code)]
fn member(key: &str, value: JsonValue) -> JsonMember {
    JsonMember {
        key: key.to_string(),
        value,
    }
}

#[allow(dead_code)]
fn object(members: Vec<JsonMember>) -> JsonValue {
    JsonValue::Object(members)
}

#[allow(dead_code)]
fn array(items: Vec<JsonValue>) -> JsonValue {
    JsonValue::Array(items)
}

#[test]
fn single_condition_equals_true() {
    let facts = build_facts();
    let single_condition = SingleCondition {
        operator: ComparisonOperator::Equals,
        values: (
            ConditionValue::Json(ReferenceValue {
                address: "one".to_string(),
            }),
            ConditionValue::Json(ReferenceValue {
                address: "one".to_string(),
            }),
        ),
    };

    let condition = Condition::Single(single_condition);
    let result = evaluation::evaluate(&condition, &facts);
    assert!(result)
}

#[test]
fn single_condition_equals_false() {
    let facts = build_facts();
    let single_condition = SingleCondition {
        operator: ComparisonOperator::Equals,
        values: (
            ConditionValue::Json(ReferenceValue {
                address: "one".to_string(),
            }),
            ConditionValue::Json(ReferenceValue {
                address: "two_point_one".to_string(),
            }),
        ),
    };

    let condition = Condition::Single(single_condition);
    let result = evaluation::evaluate(&condition, &facts);
    assert!(!result)
}

#[test]
fn single_condition_greater_than_true() {
    let facts = build_facts();
    let single_condition = SingleCondition {
        operator: ComparisonOperator::GreaterThan,
        values: (
            ConditionValue::Json(ReferenceValue {
                address: "two_point_one".to_string(),
            }),
            ConditionValue::Json(ReferenceValue {
                address: "one".to_string(),
            }),
        ),
    };

    let condition = Condition::Single(single_condition);
    let result = evaluation::evaluate(&condition, &facts);
    assert!(result)
}

#[test]
fn single_condition_greater_than_false() {
    let facts = build_facts();
    let single_condition = SingleCondition {
        operator: ComparisonOperator::GreaterThan,
        values: (
            ConditionValue::Json(ReferenceValue {
                address: "one".to_string(),
            }),
            ConditionValue::Json(ReferenceValue {
                address: "two_point_one".to_string(),
            }),
        ),
    };

    let condition = Condition::Single(single_condition);
    let result = evaluation::evaluate(&condition, &facts);
    assert!(!result)
}

#[test]
fn single_condition_less_than_true() {
    let facts = build_facts();
    let single_condition = SingleCondition {
        operator: ComparisonOperator::LessThan,
        values: (
            ConditionValue::Json(ReferenceValue {
                address: "one".to_string(),
            }),
            ConditionValue::Json(ReferenceValue {
                address: "two_point_one".to_string(),
            }),
        ),
    };

    let condition = Condition::Single(single_condition);
    let result = evaluation::evaluate(&condition, &facts);
    assert!(result)
}

#[test]
fn single_condition_less_than_false() {
    let facts = build_facts();
    let single_condition = SingleCondition {
        operator: ComparisonOperator::LessThan,
        values: (
            ConditionValue::Json(ReferenceValue {
                address: "two_point_one".to_string(),
            }),
            ConditionValue::Json(ReferenceValue {
                address: "one".to_string(),
            }),
        ),
    };

    let condition = Condition::Single(single_condition);
    let result = evaluation::evaluate(&condition, &facts);
    assert!(!result)
}

#[test]
fn single_condition_fixed_and_json_data_comparison() {
    let facts = build_facts();

    let single_condition = SingleCondition {
        operator: ComparisonOperator::Equals,
        values: (
            ConditionValue::Json(ReferenceValue {
                address: "one".to_string(),
            }),
            ConditionValue::Fixed(FactValue::Number(NumberFact::Integer(1))),
        ),
    };

    let condition = Condition::Single(single_condition);
    let result = evaluation::evaluate(&condition, &facts);
    assert!(result)
}

#[test]
fn float_and_integer_equivalence() {
    let facts = build_facts();

    let single_condition = SingleCondition {
        operator: ComparisonOperator::Equals,
        values: (
            ConditionValue::Fixed(FactValue::Number(NumberFact::Integer(1))),
            ConditionValue::Fixed(FactValue::Number(NumberFact::Float(1.0f64.to_bits()))),
        ),
    };

    let condition = Condition::Single(single_condition);
    let result = evaluation::evaluate(&condition, &facts);
    assert!(result)
}

fn build_facts() -> JsonFacts {
    let data = object(vec![member("one", integer(1)), member("two_point_one", float(2.1))]);

    JsonFacts::new(data)
}
