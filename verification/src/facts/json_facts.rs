//! A fact source backed by a JSON document.

use crate::facts::context::{hydrated, marker_of, resolved_marker, ArrayContext};
use crate::facts::{FactModel, FactValue, GetFact, NumberFact};
use crate::text::{
    chars_of, extend_chars, parse_index, push_decimal, replace_all, segment_index, split_chars,
    split_on, string_of,
};
use vstd::prelude::*;

verus! {

/// A JSON number: an integer that fits 64 signed bits, a non-negative
/// integer that fits 64 unsigned bits, or a binary64 number held as its bit
/// pattern.
#[derive(Debug, Clone, Copy)]
pub enum JsonNumber {
    Integer(i64),
    Unsigned(u64),
    Float(u64),
}

/// A member of a JSON object.
#[derive(Debug)]
pub struct JsonMember {
    pub key: String,
    pub value: JsonValue,
}

/// A JSON document.
#[derive(Debug)]
pub enum JsonValue {
    Null,
    Bool(bool),
    Number(JsonNumber),
    String(String),
    Array(Vec<JsonValue>),
    Object(Vec<JsonMember>),
}

/// A fact source that reads its facts from a JSON document.
pub struct JsonFacts {
    fact_object: JsonValue,
}

/// The value of the first member with the given key.
pub open spec fn member_value(members: Seq<JsonMember>, key: Seq<char>) -> Option<JsonValue>
    decreases members.len(),
{
    if members.len() == 0 {
        None
    } else if members[0].key@ == key {
        Some(members[0].value)
    } else {
        member_value(members.skip(1), key)
    }
}

/// One step of a path: in an object the member named by the segment, in an
/// array the element at the position that the segment denotes. Anything else
/// has no children.
pub open spec fn child(node: JsonValue, segment: Seq<char>) -> Option<JsonValue> {
    match node {
        JsonValue::Object(members) => member_value(members@, segment),
        JsonValue::Array(items) => match segment_index(segment) {
            Some(i) => if i < items@.len() {
                Some(items@[i as int])
            } else {
                None
            },
            None => None,
        },
        _ => None,
    }
}

/// The node reached from `node` by following the segments in order.
pub open spec fn descend(node: JsonValue, segments: Seq<Seq<char>>) -> Option<JsonValue>
    decreases segments.len(),
{
    if segments.len() == 0 {
        Some(node)
    } else {
        match child(node, segments[0]) {
            Some(next) => descend(next, segments.skip(1)),
            None => None,
        }
    }
}

/// The node that an address names in the document `root`: the markers are
/// resolved from the context, the result is split at the dots, and the
/// segments are followed from the root.
pub open spec fn resolve(root: JsonValue, address: Seq<char>, context: Seq<(Seq<char>, int)>) -> Option<
    JsonValue,
> {
    descend(root, split_on(hydrated(address, context), '.'))
}

/// The fact that a JSON number stands for. An unsigned integer beyond the
/// signed range stands for none.
pub open spec fn number_fact(number: JsonNumber) -> Option<NumberFact> {
    match number {
        JsonNumber::Integer(v) => Some(NumberFact::Integer(v)),
        JsonNumber::Unsigned(v) => if v <= i64::MAX {
            Some(NumberFact::Integer(v as i64))
        } else {
            None
        },
        JsonNumber::Float(bits) => Some(NumberFact::Float(bits)),
    }
}

/// The fact that a node stands for: only truth values, texts and numbers do.
pub open spec fn fact_of(node: JsonValue) -> Option<FactModel> {
    match node {
        JsonValue::Bool(b) => Some(FactModel::Boolean(b)),
        JsonValue::String(s) => Some(FactModel::Text(s@)),
        JsonValue::Number(n) => match number_fact(n) {
            Some(number) => Some(FactModel::Number(number)),
            None => None,
        },
        _ => None,
    }
}

/// The number of elements of an array, capped at the largest 64-bit signed
/// integer; 0 for anything else.
pub open spec fn length_of(node: JsonValue) -> int {
    match node {
        JsonValue::Array(items) => if items@.len() <= i64::MAX {
            items@.len() as int
        } else {
            i64::MAX as int
        },
        _ => 0,
    }
}

/// Looks up the first member with the given key.
fn find_member<'a>(members: &'a Vec<JsonMember>, key: &String) -> (found: Option<&'a JsonValue>)
    ensures
        match found {
            Some(value) => member_value(members@, key@) == Some(*value),
            None => member_value(members@, key@) is None,
        },
{
    let mut i: usize = 0;
    assert(members@.skip(0) =~= members@);
    while i < members.len()
        invariant
            i <= members.len(),
            member_value(members@, key@) == member_value(members@.skip(i as int), key@),
        decreases members.len() - i,
    {
        assert(members@.skip(i as int)[0] == members@[i as int]);
        if members[i].key == *key {
            return Some(&members[i].value);
        }
        assert(members@.skip(i as int).skip(1) =~= members@.skip(i + 1));
        i += 1;
    }
    None
}

/// Takes one step of a path from `node`.
fn step<'a>(node: &'a JsonValue, segment: &Vec<char>) -> (next: Option<&'a JsonValue>)
    ensures
        match next {
            Some(value) => child(*node, segment@) == Some(*value),
            None => child(*node, segment@) is None,
        },
{
    match node {
        JsonValue::Object(members) => {
            let key = string_of(segment);
            find_member(members, &key)
        },
        JsonValue::Array(items) => {
            match parse_index(segment) {
                Some(i) => {
                    if i < items.len() {
                        Some(&items[i])
                    } else {
                        None
                    }
                },
                None => None,
            }
        },
        _ => None,
    }
}

/// Generates an address with the array positions of the context inserted:
/// every marker `name[]` whose `name` has an entry becomes `name.<position>`.
pub fn hydrate_address_collection_indicies(address: &str, array_context: &ArrayContext) -> (hydrated_address:
    String)
    ensures
        hydrated_address@ == hydrated(address@, array_context@),
{
    let mut current = chars_of(address);
    let mut remaining = array_context.len();
    assert(array_context@.take(remaining as int) =~= array_context@);
    while remaining > 0
        invariant
            remaining <= array_context@.len(),
            hydrated(address@, array_context@) == hydrated(
                current@,
                array_context@.take(remaining as int),
            ),
        decreases remaining,
    {
        let ghost entries = array_context@.take(remaining as int);
        remaining -= 1;
        let key = chars_of(array_context.key_at(remaining));
        let index = array_context.index_at(remaining);
        let mut marker: Vec<char> = Vec::new();
        extend_chars(&mut marker, &key);
        marker.push('[');
        marker.push(']');
        let mut replacement: Vec<char> = Vec::new();
        extend_chars(&mut replacement, &key);
        replacement.push('.');
        push_decimal(index, &mut replacement);
        proof {
            assert(entries.last() == array_context@[remaining as int]);
            assert(entries.drop_last() =~= array_context@.take(remaining as int));
            assert(marker@ =~= marker_of(key@));
            assert(replacement@ =~= resolved_marker(key@, index as int));
        }
        current = replace_all(&current, &marker, &replacement);
    }
    string_of(&current)
}

impl JsonFacts {
    /// A fact source over the document `facts`.
    pub fn new(facts: JsonValue) -> (source: JsonFacts)
        ensures
            source.document() == facts,
    {
        JsonFacts { fact_object: facts }
    }

    /// The document that the facts are read from.
    pub closed spec fn document(&self) -> JsonValue {
        self.fact_object
    }

    /// Finds the node that `address` names.
    fn locate<'a>(&'a self, address: &str, array_context: &ArrayContext) -> (found: Option<&'a JsonValue>)
        ensures
            match found {
                Some(node) => resolve(self.document(), address@, array_context@) == Some(*node),
                None => resolve(self.document(), address@, array_context@) is None,
            },
    {
        let hydrated_address = hydrate_address_collection_indicies(address, array_context);
        let path = chars_of(hydrated_address.as_str());
        let segments = split_chars(&path, '.');
        let ghost all = split_on(path@, '.');
        let mut value: &JsonValue = &self.fact_object;
        let mut i: usize = 0;
        assert(all.skip(0) =~= all);
        while i < segments.len()
            invariant
                i <= segments.len(),
                all == split_on(hydrated(address@, array_context@), '.'),
                segments@.len() == all.len(),
                forall|j: int| 0 <= j < segments@.len() ==> (#[trigger] segments@[j])@ == all[j],
                descend(self.fact_object, all) == descend(*value, all.skip(i as int)),
            decreases segments.len() - i,
        {
            assert(all.skip(i as int)[0] == all[i as int]);
            assert(all.skip(i as int).skip(1) =~= all.skip(i + 1));
            match step(value, &segments[i]) {
                Some(next) => {
                    value = next;
                },
                None => {
                    return None;
                },
            }
            i += 1;
        }
        Some(value)
    }
}

impl GetFact for JsonFacts {
    open spec fn fact_at(&self, address: Seq<char>, context: Seq<(Seq<char>, int)>) -> Option<FactModel> {
        match resolve(self.document(), address, context) {
            Some(node) => fact_of(node),
            None => None,
        }
    }

    open spec fn array_len_at(&self, address: Seq<char>, context: Seq<(Seq<char>, int)>) -> int {
        match resolve(self.document(), address, context) {
            Some(node) => length_of(node),
            None => 0,
        }
    }

    fn get_fact(&self, fact_address: &str, array_context: &ArrayContext) -> (fact: Option<FactValue>) {
        match self.locate(fact_address, array_context) {
            Some(value) => match value {
                JsonValue::Bool(bool_value) => Some(FactValue::Boolean(*bool_value)),
                JsonValue::String(string_value) => Some(FactValue::String(string_value.clone())),
                JsonValue::Number(number_value) => match number_value {
                    JsonNumber::Float(bits) => Some(FactValue::Number(NumberFact::Float(*bits))),
                    JsonNumber::Integer(v) => Some(FactValue::Number(NumberFact::Integer(*v))),
                    JsonNumber::Unsigned(v) => {
                        if *v <= 0x7fff_ffff_ffff_ffff {
                            Some(FactValue::Number(NumberFact::Integer(*v as i64)))
                        } else {
                            None
                        }
                    },
                },
                _ => None,
            },
            None => None,
        }
    }

    fn get_array_len(&self, address: &str, array_context: &ArrayContext) -> (len: i64) {
        match self.locate(address, array_context) {
            Some(value) => match value {
                JsonValue::Array(array_value) => {
                    let count = array_value.len() as u64;
                    if count <= 0x7fff_ffff_ffff_ffff {
                        count as i64
                    } else {
                        0x7fff_ffff_ffff_ffff
                    }
                },
                _ => 0,
            },
            None => 0,
        }
    }
}

} // verus!
