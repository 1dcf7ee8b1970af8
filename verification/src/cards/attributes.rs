//! The attributes of a card definition: named values of a few plain kinds.

use rustc_hash::FxHashMap;
use vstd::prelude::*;

verus! {

/// The name of an attribute.
#[derive(Clone, Debug, PartialEq, Eq, Hash)]
pub struct AttributeKey(pub String);

impl AttributeKey {
    /// The key with the given name.
    pub fn new(key: &str) -> (made: Self)
        ensures
            made.0@ == key@,
    {
        AttributeKey(key.to_owned())
    }
}

impl<'a> From<&'a str> for AttributeKey {
    fn from(key: &'a str) -> (made: Self)
        ensures
            made.0@ == key@,
    {
        AttributeKey::new(key)
    }
}

impl<'a> vstd::std_specs::convert::FromSpecImpl<&'a str> for AttributeKey {
    open spec fn obeys_from_spec() -> bool {
        false
    }

    open spec fn from_spec(key: &'a str) -> Self {
        arbitrary()
    }
}

impl From<String> for AttributeKey {
    fn from(key: String) -> (made: Self) {
        AttributeKey(key)
    }
}

impl vstd::std_specs::convert::FromSpecImpl<String> for AttributeKey {
    open spec fn obeys_from_spec() -> bool {
        true
    }

    open spec fn from_spec(key: String) -> Self {
        AttributeKey(key)
    }
}

/// The value of an attribute.
#[derive(Clone, Debug, PartialEq)]
pub enum AttributeValue {
    Int(i64),
    Bool(bool),
    Text(String),
    IntList(Vec<i64>),
    TextList(Vec<String>),
}

impl AttributeValue {
    /// The integer, if this is one.
    pub fn as_int(&self) -> (value: Option<i64>)
        ensures
            value == match *self {
                AttributeValue::Int(v) => Some(v),
                _ => None,
            },
    {
        match self {
            AttributeValue::Int(v) => Some(*v),
            _ => None,
        }
    }

    /// The boolean, if this is one.
    pub fn as_bool(&self) -> (value: Option<bool>)
        ensures
            value == match *self {
                AttributeValue::Bool(v) => Some(v),
                _ => None,
            },
    {
        match self {
            AttributeValue::Bool(v) => Some(*v),
            _ => None,
        }
    }

    /// The text, if this is one.
    pub fn as_text(&self) -> (value: Option<&str>)
        ensures
            match *self {
                AttributeValue::Text(text) => value matches Some(found) && found@ == text@,
                _ => value is None,
            },
    {
        match self {
            AttributeValue::Text(text) => Some(text.as_str()),
            _ => None,
        }
    }

    /// The list of integers, if this is one.
    pub fn as_int_list(&self) -> (value: Option<&[i64]>)
        ensures
            match *self {
                AttributeValue::IntList(list) => value matches Some(found) && found@ == list@,
                _ => value is None,
            },
    {
        match self {
            AttributeValue::IntList(list) => Some(list.as_slice()),
            _ => None,
        }
    }

    /// The list of texts, if this is one.
    pub fn as_text_list(&self) -> (value: Option<&[String]>)
        ensures
            match *self {
                AttributeValue::TextList(list) => value matches Some(found) && found@ == list@,
                _ => value is None,
            },
    {
        match self {
            AttributeValue::TextList(list) => Some(list.as_slice()),
            _ => None,
        }
    }
}

impl From<i64> for AttributeValue {
    fn from(value: i64) -> (made: Self) {
        AttributeValue::Int(value)
    }
}

impl vstd::std_specs::convert::FromSpecImpl<i64> for AttributeValue {
    open spec fn obeys_from_spec() -> bool {
        true
    }

    open spec fn from_spec(value: i64) -> Self {
        AttributeValue::Int(value)
    }
}

impl From<i32> for AttributeValue {
    fn from(value: i32) -> (made: Self) {
        AttributeValue::Int(value as i64)
    }
}

impl vstd::std_specs::convert::FromSpecImpl<i32> for AttributeValue {
    open spec fn obeys_from_spec() -> bool {
        true
    }

    open spec fn from_spec(value: i32) -> Self {
        AttributeValue::Int(value as i64)
    }
}

impl From<bool> for AttributeValue {
    fn from(value: bool) -> (made: Self) {
        AttributeValue::Bool(value)
    }
}

impl vstd::std_specs::convert::FromSpecImpl<bool> for AttributeValue {
    open spec fn obeys_from_spec() -> bool {
        true
    }

    open spec fn from_spec(value: bool) -> Self {
        AttributeValue::Bool(value)
    }
}

impl From<String> for AttributeValue {
    fn from(value: String) -> (made: Self) {
        AttributeValue::Text(value)
    }
}

impl vstd::std_specs::convert::FromSpecImpl<String> for AttributeValue {
    open spec fn obeys_from_spec() -> bool {
        true
    }

    open spec fn from_spec(value: String) -> Self {
        AttributeValue::Text(value)
    }
}

impl<'a> From<&'a str> for AttributeValue {
    fn from(value: &'a str) -> (made: Self)
        ensures
            made matches AttributeValue::Text(text) && text@ == value@,
    {
        AttributeValue::Text(value.to_owned())
    }
}

impl<'a> vstd::std_specs::convert::FromSpecImpl<&'a str> for AttributeValue {
    open spec fn obeys_from_spec() -> bool {
        false
    }

    open spec fn from_spec(value: &'a str) -> Self {
        arbitrary()
    }
}

impl From<Vec<i64>> for AttributeValue {
    fn from(value: Vec<i64>) -> (made: Self) {
        AttributeValue::IntList(value)
    }
}

impl vstd::std_specs::convert::FromSpecImpl<Vec<i64>> for AttributeValue {
    open spec fn obeys_from_spec() -> bool {
        true
    }

    open spec fn from_spec(value: Vec<i64>) -> Self {
        AttributeValue::IntList(value)
    }
}

impl From<Vec<String>> for AttributeValue {
    fn from(value: Vec<String>) -> (made: Self) {
        AttributeValue::TextList(value)
    }
}

impl vstd::std_specs::convert::FromSpecImpl<Vec<String>> for AttributeValue {
    open spec fn obeys_from_spec() -> bool {
        true
    }

    open spec fn from_spec(value: Vec<String>) -> Self {
        AttributeValue::TextList(value)
    }
}

/// The attributes of one card definition.
pub type Attributes = FxHashMap<AttributeKey, AttributeValue>;

/// What an attribute map holds, by the characters of each key.
pub uninterp spec fn attribute_entries(map: FxHashMap<AttributeKey, AttributeValue>) -> Map<
    Seq<char>,
    AttributeValue,
>;

/// `FxHashMap::default` with attribute keys: a map that holds nothing.
#[verifier::external_body]
pub(crate) fn attributes_new() -> (map: FxHashMap<AttributeKey, AttributeValue>)
    ensures
        attribute_entries(map) == (Map::<Seq<char>, AttributeValue>::empty()),
{
    FxHashMap::default()
}

/// `HashMap::get` with an attribute key: the value stored under the key.
#[verifier::external_body]
pub(crate) fn attributes_get<'a>(
    map: &'a FxHashMap<AttributeKey, AttributeValue>,
    key: &AttributeKey,
) -> (value: Option<&'a AttributeValue>)
    ensures
        value == (if attribute_entries(*map).contains_key(key.0@) {
            Some(&attribute_entries(*map)[key.0@])
        } else {
            None
        }),
{
    map.get(key)
}

/// `HashMap::insert` with an attribute key: the key now maps to the value.
#[verifier::external_body]
pub(crate) fn attributes_insert(
    map: &mut FxHashMap<AttributeKey, AttributeValue>,
    key: AttributeKey,
    value: AttributeValue,
)
    ensures
        attribute_entries(*final(map)) == attribute_entries(*old(map)).insert(key.0@, value),
{
    map.insert(key, value);
}

} // verus!
