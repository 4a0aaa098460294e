//! The comparison operators of the fact values: `==` holds of two values
//! that are equal under the value model, and `<`, `<=`, `>`, `>=` follow its
//! order. Unordered values satisfy none of them.

use crate::facts::binary64::Relation;
use crate::facts::{fact_relation, number_relation, FactValue, NumberFact};
use std::cmp::Ordering;
use vstd::prelude::*;

verus! {

impl PartialEq for NumberFact {
    fn eq(&self, other: &Self) -> (equal: bool) {
        match self.compare(other) {
            Relation::Equal => true,
            _ => false,
        }
    }
}

impl vstd::std_specs::cmp::PartialEqSpecImpl for NumberFact {
    open spec fn obeys_eq_spec() -> bool {
        true
    }

    open spec fn eq_spec(&self, other: &Self) -> bool {
        number_relation(*self, *other) == Relation::Equal
    }
}

impl PartialOrd for NumberFact {
    fn partial_cmp(&self, other: &Self) -> (order: Option<Ordering>) {
        match self.compare(other) {
            Relation::Less => Some(Ordering::Less),
            Relation::Equal => Some(Ordering::Equal),
            Relation::Greater => Some(Ordering::Greater),
            Relation::Unordered => None,
        }
    }
}

impl vstd::std_specs::cmp::PartialOrdSpecImpl for NumberFact {
    open spec fn obeys_partial_cmp_spec() -> bool {
        true
    }

    open spec fn partial_cmp_spec(&self, other: &Self) -> Option<Ordering> {
        match number_relation(*self, *other) {
            Relation::Less => Some(Ordering::Less),
            Relation::Equal => Some(Ordering::Equal),
            Relation::Greater => Some(Ordering::Greater),
            Relation::Unordered => None,
        }
    }
}

impl PartialEq for FactValue {
    fn eq(&self, other: &Self) -> (equal: bool) {
        match self.compare(other) {
            Relation::Equal => true,
            _ => false,
        }
    }
}

impl vstd::std_specs::cmp::PartialEqSpecImpl for FactValue {
    open spec fn obeys_eq_spec() -> bool {
        true
    }

    open spec fn eq_spec(&self, other: &Self) -> bool {
        fact_relation(self@, other@) == Relation::Equal
    }
}

impl PartialOrd for FactValue {
    fn partial_cmp(&self, other: &Self) -> (order: Option<Ordering>) {
        match self.compare(other) {
            Relation::Less => Some(Ordering::Less),
            Relation::Equal => Some(Ordering::Equal),
            Relation::Greater => Some(Ordering::Greater),
            Relation::Unordered => None,
        }
    }
}

impl vstd::std_specs::cmp::PartialOrdSpecImpl for FactValue {
    open spec fn obeys_partial_cmp_spec() -> bool {
        true
    }

    open spec fn partial_cmp_spec(&self, other: &Self) -> Option<Ordering> {
        match fact_relation(self@, other@) {
            Relation::Less => Some(Ordering::Less),
            Relation::Equal => Some(Ordering::Equal),
            Relation::Greater => Some(Ordering::Greater),
            Relation::Unordered => None,
        }
    }
}

} // verus!
