//! Facts: the values that conditions compare, the array context that names
//! the current element of each collection, and the protocol by which the
//! engine asks a fact source for values.

pub mod binary64;
pub mod context;
pub mod json_facts;
pub mod relations;

use crate::facts::binary64::{
    bits_relation, compare_bits, compare_ints, int_relation, is_nan,
    lemma_nearest_magnitude_bound, lemma_promotion_keeps_order, promote, promoted_bits, Relation,
    SIGNIFICAND_LIMIT,
};
use crate::facts::context::ArrayContext;
use crate::text::chars_of;
use vstd::prelude::*;

verus! {

/// A number: a 64-bit signed integer, or a binary64 number held as its bit
/// pattern.
#[derive(Debug, Clone, Copy)]
pub enum NumberFact {
    Integer(i64),
    Float(u64),
}

/// A fact value.
#[derive(Debug, Clone)]
pub enum FactValue {
    Number(NumberFact),
    String(String),
    Boolean(bool),
}

/// What a fact value is: a number, a text or a truth value.
pub enum FactModel {
    Number(NumberFact),
    Text(Seq<char>),
    Boolean(bool),
}

impl View for FactValue {
    type V = FactModel;

    open spec fn view(&self) -> FactModel {
        match self {
            FactValue::Number(n) => FactModel::Number(*n),
            FactValue::String(s) => FactModel::Text(s@),
            FactValue::Boolean(b) => FactModel::Boolean(*b),
        }
    }
}

/// What an optional fact value is.
pub open spec fn optional_model(value: Option<FactValue>) -> Option<FactModel> {
    match value {
        Some(v) => Some(v@),
        None => None,
    }
}

/// How two numbers stand to each other. Two integers compare as integers;
/// where one is a binary64 number the other is promoted to one.
pub open spec fn number_relation(a: NumberFact, b: NumberFact) -> Relation {
    match (a, b) {
        (NumberFact::Integer(x), NumberFact::Integer(y)) => int_relation(x as int, y as int),
        (NumberFact::Float(x), NumberFact::Float(y)) => bits_relation(x, y),
        (NumberFact::Integer(x), NumberFact::Float(y)) => bits_relation(promoted_bits(x as int), y),
        (NumberFact::Float(x), NumberFact::Integer(y)) => bits_relation(x, promoted_bits(y as int)),
    }
}

/// How two texts stand to each other in lexicographic order by character.
pub open spec fn text_relation(a: Seq<char>, b: Seq<char>) -> Relation
    decreases a.len(),
{
    if a.len() == 0 && b.len() == 0 {
        Relation::Equal
    } else if a.len() == 0 {
        Relation::Less
    } else if b.len() == 0 {
        Relation::Greater
    } else if a[0] == b[0] {
        text_relation(a.skip(1), b.skip(1))
    } else if a[0] < b[0] {
        Relation::Less
    } else {
        Relation::Greater
    }
}

/// How two truth values stand to each other: false comes before true.
pub open spec fn bool_relation(a: bool, b: bool) -> Relation {
    if a == b {
        Relation::Equal
    } else if b {
        Relation::Less
    } else {
        Relation::Greater
    }
}

/// How two fact values stand to each other. Values of different categories
/// are neither equal nor ordered.
pub open spec fn fact_relation(a: FactModel, b: FactModel) -> Relation {
    match (a, b) {
        (FactModel::Number(x), FactModel::Number(y)) => number_relation(x, y),
        (FactModel::Text(x), FactModel::Text(y)) => text_relation(x, y),
        (FactModel::Boolean(x), FactModel::Boolean(y)) => bool_relation(x, y),
        _ => Relation::Unordered,
    }
}

/// How two optional fact values stand to each other. Two missing values are
/// equal, and a missing value comes before every present one.
pub open spec fn optional_relation(a: Option<FactModel>, b: Option<FactModel>) -> Relation {
    match (a, b) {
        (None, None) => Relation::Equal,
        (None, Some(_)) => Relation::Less,
        (Some(_), None) => Relation::Greater,
        (Some(x), Some(y)) => fact_relation(x, y),
    }
}

/// Whether a number is a binary64 pattern that is not a number.
pub open spec fn number_is_nan(n: NumberFact) -> bool {
    match n {
        NumberFact::Integer(_) => false,
        NumberFact::Float(bits) => is_nan(bits),
    }
}

/// Two numbers are always ordered or equal, whatever their kinds, unless one
/// of them is a pattern that is not a number.
pub proof fn lemma_numbers_are_ordered(a: NumberFact, b: NumberFact)
    ensures
        number_relation(a, b) == Relation::Unordered <==> number_is_nan(a) || number_is_nan(b),
{
    match a {
        NumberFact::Integer(x) => {
            lemma_integer_equals_its_promotion(x);
        },
        _ => {},
    }
    match b {
        NumberFact::Integer(y) => {
            lemma_integer_equals_its_promotion(y);
        },
        _ => {},
    }
}

/// Values of different categories are neither equal nor ordered.
pub proof fn lemma_categories_are_unordered(a: FactModel, b: FactModel)
    requires
        (a is Number) != (b is Number) || (a is Text) != (b is Text) || (a is Boolean) != (b
            is Boolean),
    ensures
        fact_relation(a, b) == Relation::Unordered,
{
}

/// What `a` is to `b`, seen from `b`.
pub open spec fn converse(relation: Relation) -> Relation {
    match relation {
        Relation::Less => Relation::Greater,
        Relation::Greater => Relation::Less,
        Relation::Equal => Relation::Equal,
        Relation::Unordered => Relation::Unordered,
    }
}

/// Two texts stand to each other the same way from either side.
pub proof fn lemma_text_relation_converse(a: Seq<char>, b: Seq<char>)
    ensures
        text_relation(b, a) == converse(text_relation(a, b)),
    decreases a.len(),
{
    if a.len() > 0 && b.len() > 0 && a[0] == b[0] {
        lemma_text_relation_converse(a.skip(1), b.skip(1));
    }
}

/// Two optional values stand to each other the same way from either side:
/// one is less than the other exactly when the other is greater than it.
pub proof fn lemma_relation_converse(a: Option<FactModel>, b: Option<FactModel>)
    ensures
        optional_relation(b, a) == converse(optional_relation(a, b)),
{
    match (a, b) {
        (Some(FactModel::Text(x)), Some(FactModel::Text(y))) => {
            lemma_text_relation_converse(x, y);
        },
        _ => {},
    }
}

/// An integer equals the binary64 number that it is promoted to.
pub proof fn lemma_integer_equals_its_promotion(n: i64)
    ensures
        number_relation(NumberFact::Integer(n), NumberFact::Float(promoted_bits(n as int)))
            == Relation::Equal,
        number_relation(NumberFact::Float(promoted_bits(n as int)), NumberFact::Integer(n))
            == Relation::Equal,
{
    lemma_nearest_magnitude_bound(if n < 0 {
        (-n) as nat
    } else {
        n as nat
    });
}

/// Compared with a binary64 number, an integer and the number it is promoted
/// to give the same result, on either side of the comparison.
pub proof fn lemma_promotion_substitutes_against_float(n: i64, other: u64)
    ensures
        number_relation(NumberFact::Integer(n), NumberFact::Float(other)) == number_relation(
            NumberFact::Float(promoted_bits(n as int)),
            NumberFact::Float(other),
        ),
        number_relation(NumberFact::Float(other), NumberFact::Integer(n)) == number_relation(
            NumberFact::Float(other),
            NumberFact::Float(promoted_bits(n as int)),
        ),
{
}

/// Compared with another integer, an integer and the number it is promoted
/// to give the same result, on either side of the comparison, where at least
/// one of the two integers has a magnitude below two to the power 53. Two
/// larger integers can be promoted to the same number without being equal.
pub proof fn lemma_promotion_substitutes_against_integer(n: i64, other: i64)
    requires
        -SIGNIFICAND_LIMIT < n < SIGNIFICAND_LIMIT || -SIGNIFICAND_LIMIT < other
            < SIGNIFICAND_LIMIT,
    ensures
        number_relation(NumberFact::Integer(n), NumberFact::Integer(other)) == number_relation(
            NumberFact::Float(promoted_bits(n as int)),
            NumberFact::Integer(other),
        ),
        number_relation(NumberFact::Integer(other), NumberFact::Integer(n)) == number_relation(
            NumberFact::Integer(other),
            NumberFact::Float(promoted_bits(n as int)),
        ),
{
    lemma_promotion_keeps_order(n as int, other as int);
    lemma_promotion_keeps_order(other as int, n as int);
}

/// How two texts stand to each other in lexicographic order.
pub fn compare_texts(a: &str, b: &str) -> (r: Relation)
    ensures
        r == text_relation(a@, b@),
{
    let left = chars_of(a);
    let right = chars_of(b);
    let mut i: usize = 0;
    assert(left@.skip(0) =~= left@);
    assert(right@.skip(0) =~= right@);
    while i < left.len() && i < right.len()
        invariant
            left@ == a@,
            right@ == b@,
            i <= left.len(),
            i <= right.len(),
            text_relation(left@, right@) == text_relation(left@.skip(i as int), right@.skip(i as int)),
        decreases left.len() - i,
    {
        let x = left[i];
        let y = right[i];
        assert(left@.skip(i as int)[0] == x);
        assert(right@.skip(i as int)[0] == y);
        if x != y {
            if x < y {
                return Relation::Less;
            } else {
                return Relation::Greater;
            }
        }
        assert(left@.skip(i as int).skip(1) =~= left@.skip(i + 1));
        assert(right@.skip(i as int).skip(1) =~= right@.skip(i + 1));
        i += 1;
    }
    assert(left@.skip(i as int).len() == left.len() - i);
    assert(right@.skip(i as int).len() == right.len() - i);
    if i < right.len() {
        Relation::Less
    } else if i < left.len() {
        Relation::Greater
    } else {
        Relation::Equal
    }
}

impl NumberFact {
    /// How this number stands to `other`.
    pub fn compare(&self, other: &NumberFact) -> (r: Relation)
        ensures
            r == number_relation(*self, *other),
    {
        match (self, other) {
            (NumberFact::Integer(x), NumberFact::Integer(y)) => compare_ints(*x, *y),
            (NumberFact::Float(x), NumberFact::Float(y)) => compare_bits(*x, *y),
            (NumberFact::Integer(x), NumberFact::Float(y)) => compare_bits(promote(*x), *y),
            (NumberFact::Float(x), NumberFact::Integer(y)) => compare_bits(*x, promote(*y)),
        }
    }
}

impl FactValue {
    /// How this value stands to `other`.
    pub fn compare(&self, other: &FactValue) -> (r: Relation)
        ensures
            r == fact_relation(self@, other@),
    {
        match (self, other) {
            (FactValue::Number(x), FactValue::Number(y)) => x.compare(y),
            (FactValue::String(x), FactValue::String(y)) => compare_texts(x.as_str(), y.as_str()),
            (FactValue::Boolean(x), FactValue::Boolean(y)) => {
                if *x == *y {
                    Relation::Equal
                } else if *y {
                    Relation::Less
                } else {
                    Relation::Greater
                }
            },
            _ => Relation::Unordered,
        }
    }

    /// A copy of this value.
    pub fn duplicate(&self) -> (copy: FactValue)
        ensures
            copy@ == self@,
    {
        match self {
            FactValue::Number(n) => FactValue::Number(*n),
            FactValue::String(s) => FactValue::String(s.clone()),
            FactValue::Boolean(b) => FactValue::Boolean(*b),
        }
    }
}

/// How two optional values stand to each other.
pub fn compare_optional(a: &Option<FactValue>, b: &Option<FactValue>) -> (r: Relation)
    ensures
        r == optional_relation(optional_model(*a), optional_model(*b)),
{
    match (a, b) {
        (None, None) => Relation::Equal,
        (None, Some(_)) => Relation::Less,
        (Some(_), None) => Relation::Greater,
        (Some(x), Some(y)) => x.compare(y),
    }
}

/// What the engine asks of a fact source. The two spec functions say what
/// the source holds; both methods return what they say, so a source answers
/// the same question in the same way every time.
pub trait GetFact {
    /// The value at `address`, read in the array context `context`, if the
    /// source has one there.
    spec fn fact_at(&self, address: Seq<char>, context: Seq<(Seq<char>, int)>) -> Option<FactModel>;

    /// The number of elements of the collection at `address`, read in the
    /// array context `context`; 0 where there is no collection.
    spec fn array_len_at(&self, address: Seq<char>, context: Seq<(Seq<char>, int)>) -> int;

    /// Looks up the value at `fact_address`.
    fn get_fact(&self, fact_address: &str, array_context: &ArrayContext) -> (fact: Option<FactValue>)
        ensures
            optional_model(fact) == self.fact_at(fact_address@, array_context@),
    ;

    /// Looks up the number of elements of the collection at `address`.
    fn get_array_len(&self, address: &str, array_context: &ArrayContext) -> (len: i64)
        ensures
            len == self.array_len_at(address@, array_context@),
    ;
}

} // verus!
