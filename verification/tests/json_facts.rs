use engine::facts::context::ArrayContext;
use engine::facts::json_facts::{
    hydrate_address_collection_indicies, JsonFacts, JsonMember, JsonNumber, JsonValue,
};
use engine::facts::{FactValue, GetFact, NumberFact};

fn integer(value: i64) -> JsonValue {
    JsonValue::Number(JsonNumber::Integer(value))
}

fn float(value: f64) -> JsonValue {
    JsonValue::Number(JsonNumber::Float(value.to_bits()))
}

fn member(key: &str, value: JsonValue) -> JsonMember {
    JsonMember {
        key: key.to_string(),
        value,
    }
}

fn object(members: Vec<JsonMember>) -> JsonValue {
    JsonValue::Object(members)
}

fn array(items: Vec<JsonValue>) -> JsonValue {
    JsonValue::Array(items)
}

fn numbers() -> JsonValue {
    object(vec![
        member("one", integer(1)),
        member("two_point_one", float(2.1)),
    ])
}

#[test]
fn get_fact() {
    let data = numbers();

    let array_context = ArrayContext::new();
    let facts = JsonFacts::new(data);
    let fact_one = facts.get_fact("one", &array_context);

    assert_eq!(fact_one.unwrap(), FactValue::Number(NumberFact::Integer(1)));
}

#[test]
fn missing_fact_return_none() {
    let data = numbers();

    let facts = JsonFacts::new(data);
    let array_context = ArrayContext::new();

    let does_not_exist = facts.get_fact("no", &array_context);
    assert!(does_not_exist.is_none());
}

#[test]
fn get_nested_fact() {
    let data = object(vec![member("numbers", numbers())]);

    let facts = JsonFacts::new(data);
    let array_context = ArrayContext::new();

    let fact_one = facts.get_fact("numbers.one", &array_context);
    assert_eq!(fact_one.unwrap(), FactValue::Number(NumberFact::Integer(1)));
}

#[test]
fn get_fact_from_array() {
    let data = object(vec![member(
        "people",
        array(vec![
            object(vec![member("age", integer(25))]),
            object(vec![member("age", integer(33))]),
        ]),
    )]);
    let facts = JsonFacts::new(data);

    let mut array_context = ArrayContext::new();
    array_context.insert("people", 1);

    let fact_one = facts.get_fact("people[].age", &array_context);
    assert_eq!(
        fact_one.unwrap(),
        FactValue::Number(NumberFact::Integer(33))
    );
}

fn family(age: i64, first_child: i64, second_child: i64) -> JsonValue {
    object(vec![
        member("age", integer(age)),
        member(
            "children",
            array(vec![
                object(vec![member("child_age", integer(first_child))]),
                object(vec![member("child_age", integer(second_child))]),
            ]),
        ),
    ])
}

#[test]
fn get_fact_from_nested_array() {
    let data = object(vec![member(
        "people",
        array(vec![family(45, 10, 12), family(33, 5, 7)]),
    )]);
    let facts = JsonFacts::new(data);

    let mut array_context = ArrayContext::new();
    array_context.insert("people", 0);
    array_context.insert("children", 1);

    let fact_one = facts.get_fact("people[].children[].child_age", &array_context);
    assert_eq!(
        fact_one.unwrap_or(FactValue::Number(NumberFact::Integer(0))),
        FactValue::Number(NumberFact::Integer(12))
    );
}

#[test]
fn get_none_fact_from_array() {
    let data = object(vec![member("people", array(vec![]))]);
    let facts = JsonFacts::new(data);

    let mut array_context = ArrayContext::new();
    array_context.insert("people", 1);

    let fact_one = facts.get_fact("people[].age", &array_context);
    assert!(fact_one.is_none());
}

#[test]
fn hydrate_resolves_marker_from_context() {
    let mut array_context = ArrayContext::new();
    array_context.insert("people", 1);
    assert_eq!(
        hydrate_address_collection_indicies("people[].age", &array_context),
        "people.1.age"
    );
}

#[test]
fn hydrate_without_context_keeps_address() {
    let array_context = ArrayContext::new();
    assert_eq!(
        hydrate_address_collection_indicies("people[].age", &array_context),
        "people[].age"
    );
}

#[test]
fn hydrate_leaves_unknown_marker() {
    let mut array_context = ArrayContext::new();
    array_context.insert("pets", 3);
    assert_eq!(
        hydrate_address_collection_indicies("people[].age", &array_context),
        "people[].age"
    );
    let facts = JsonFacts::new(object(vec![member(
        "people",
        array(vec![object(vec![member("age", integer(25))])]),
    )]));
    assert!(facts.get_fact("people[].age", &array_context).is_none());
    assert_eq!(facts.get_array_len("people[]", &array_context), 0);
}

#[test]
fn hydrate_resolves_every_occurrence() {
    let mut array_context = ArrayContext::new();
    array_context.insert("a", 12);
    assert_eq!(
        hydrate_address_collection_indicies("a[].a[].b", &array_context),
        "a.12.a.12.b"
    );
}

#[test]
fn hydrate_composes_distinct_collections() {
    let mut array_context = ArrayContext::new();
    array_context.insert("people", 0);
    array_context.insert("children", 1);
    assert_eq!(
        hydrate_address_collection_indicies("people[].children[].child_age", &array_context),
        "people.0.children.1.child_age"
    );
}

#[test]
fn hydrate_writes_negative_and_extreme_positions() {
    let mut array_context = ArrayContext::new();
    array_context.insert("a", -7);
    array_context.insert("b", i64::MIN);
    array_context.insert("c", i64::MAX);
    assert_eq!(
        hydrate_address_collection_indicies("a[]/b[]/c[]", &array_context),
        "a.-7/b.-9223372036854775808/c.9223372036854775807"
    );
}

#[test]
fn hydrate_applies_later_entries_first() {
    let mut array_context = ArrayContext::new();
    array_context.insert("people", 1);
    array_context.insert("people[].children", 0);
    assert_eq!(
        hydrate_address_collection_indicies("people[].children[].age", &array_context),
        "people.1.children.0.age"
    );
}

#[test]
fn context_insert_replaces_position_of_known_address() {
    let mut array_context = ArrayContext::new();
    assert!(array_context.is_empty());
    array_context.insert("people", 1);
    array_context.insert("pets", 2);
    array_context.insert("people", 5);
    assert_eq!(array_context.len(), 2);
    assert_eq!(array_context.get("people"), Some(5));
    assert_eq!(array_context.get("pets"), Some(2));
    assert_eq!(array_context.get("cars"), None);
    assert_eq!(array_context.key_at(0), "people");
    assert_eq!(array_context.index_at(0), 5);
    assert_eq!(array_context.find("pets"), Some(1));
}

#[test]
fn context_for_item_keeps_outer_entry_on_collision() {
    let mut outer = ArrayContext::new();
    outer.insert("people", 4);
    let inner = outer.for_item("people", 0);
    assert_eq!(inner.len(), 1);
    assert_eq!(inner.get("people"), Some(4));
    let other = outer.for_item("pets", 2);
    assert_eq!(other.len(), 2);
    assert_eq!(other.get("pets"), Some(2));
    assert_eq!(other.key_at(1), "pets");
}

#[test]
fn get_array_len_counts_elements() {
    let facts = JsonFacts::new(object(vec![
        member("numbers", array(vec![integer(5), integer(10), integer(15)])),
        member("one", integer(1)),
    ]));
    let array_context = ArrayContext::new();
    assert_eq!(facts.get_array_len("numbers", &array_context), 3);
    assert_eq!(facts.get_array_len("one", &array_context), 0);
    assert_eq!(facts.get_array_len("missing", &array_context), 0);
    assert_eq!(facts.get_array_len("numbers.0", &array_context), 0);
}

#[test]
fn array_segments_are_positions() {
    let facts = JsonFacts::new(object(vec![member(
        "numbers",
        array(vec![integer(5), integer(10), integer(15)]),
    )]));
    let array_context = ArrayContext::new();
    let ten = FactValue::Number(NumberFact::Integer(10));
    assert_eq!(facts.get_fact("numbers.1", &array_context), Some(ten.clone()));
    assert_eq!(facts.get_fact("numbers.+1", &array_context), Some(ten.clone()));
    assert_eq!(facts.get_fact("numbers.001", &array_context), Some(ten));
    assert!(facts.get_fact("numbers.3", &array_context).is_none());
    assert!(facts.get_fact("numbers.-1", &array_context).is_none());
    assert!(facts.get_fact("numbers.x", &array_context).is_none());
    assert!(facts.get_fact("numbers.", &array_context).is_none());
    assert!(facts.get_fact("numbers.+", &array_context).is_none());
    assert!(facts
        .get_fact("numbers.99999999999999999999999999", &array_context)
        .is_none());
    assert!(facts.get_fact("numbers.1.deeper", &array_context).is_none());
}

#[test]
fn terminal_nodes_become_facts() {
    let facts = JsonFacts::new(object(vec![
        member("flag", JsonValue::Bool(true)),
        member("name", JsonValue::String("ada".to_string())),
        member("ratio", float(2.5)),
        member("small", JsonValue::Number(JsonNumber::Unsigned(7))),
        member("huge", JsonValue::Number(JsonNumber::Unsigned(u64::MAX))),
        member("nothing", JsonValue::Null),
        member("nested", object(vec![])),
        member("list", array(vec![])),
        member("", integer(4)),
    ]));
    let array_context = ArrayContext::new();
    assert_eq!(
        facts.get_fact("flag", &array_context),
        Some(FactValue::Boolean(true))
    );
    assert_eq!(
        facts.get_fact("name", &array_context),
        Some(FactValue::String("ada".to_string()))
    );
    assert_eq!(
        facts.get_fact("ratio", &array_context),
        Some(FactValue::Number(NumberFact::Float(2.5f64.to_bits())))
    );
    assert_eq!(
        facts.get_fact("small", &array_context),
        Some(FactValue::Number(NumberFact::Integer(7)))
    );
    assert!(facts.get_fact("huge", &array_context).is_none());
    assert!(facts.get_fact("nothing", &array_context).is_none());
    assert!(facts.get_fact("nested", &array_context).is_none());
    assert!(facts.get_fact("list", &array_context).is_none());
    assert_eq!(
        facts.get_fact("", &array_context),
        Some(FactValue::Number(NumberFact::Integer(4)))
    );
    assert!(facts.get_fact("flag.", &array_context).is_none());
}

#[test]
fn first_member_with_a_key_is_found() {
    let facts = JsonFacts::new(object(vec![
        member("one", integer(1)),
        member("one", integer(2)),
    ]));
    let array_context = ArrayContext::new();
    assert_eq!(
        facts.get_fact("one", &array_context),
        Some(FactValue::Number(NumberFact::Integer(1)))
    );
}
