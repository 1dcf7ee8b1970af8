//! Card definitions: what a card is, whoever holds it.

use super::attributes::{
    attribute_entries, attributes_get, attributes_insert, attributes_new, AttributeKey,
    AttributeValue, Attributes,
};
use vstd::prelude::*;

verus! {

/// Identifier of a card definition.
#[derive(Clone, Copy, Debug, PartialEq, Eq, Hash, Structural)]
pub struct CardId(pub u32);

impl CardId {
    /// The identifier as text.
    pub fn to_string(&self) -> (text: String)
        ensures
            text@ == "Card("@ + crate::base::text::decimal(self.0 as nat) + ")"@,
    {
        crate::base::text::labelled("Card(", self.0 as u64, ")")
    }

    /// A card identifier.
    pub fn new(id: u32) -> (card: Self)
        ensures
            card.0 == id,
    {
        CardId(id)
    }

    /// The raw number.
    pub fn raw(self) -> (raw: u32)
        ensures
            raw == self.0,
    {
        self.0
    }
}

/// Identifier of a kind of card; the game gives it its meaning.
#[derive(Clone, Copy, Debug, PartialEq, Eq, Hash, Structural)]
pub struct CardTypeId(pub u32);

impl CardTypeId {
    /// A card type identifier.
    pub fn new(id: u32) -> (card_type: Self)
        ensures
            card_type.0 == id,
    {
        CardTypeId(id)
    }

    /// The raw number.
    pub fn raw(self) -> (raw: u32)
        ensures
            raw == self.0,
    {
        self.0
    }
}

/// The definition of a card: its name, its kind and its attributes.
#[derive(Clone, Debug)]
pub struct CardDefinition {
    pub id: CardId,
    pub name: String,
    pub card_type: CardTypeId,
    pub attributes: Attributes,
}

impl CardDefinition {
    /// What the attributes hold, by the characters of each key.
    pub open spec fn attrs(&self) -> Map<Seq<char>, AttributeValue> {
        attribute_entries(self.attributes)
    }

    /// The attribute stored under `key`, if any.
    pub open spec fn attr(&self, key: Seq<char>) -> Option<AttributeValue> {
        if self.attrs().contains_key(key) {
            Some(self.attrs()[key])
        } else {
            None
        }
    }

    /// A definition without attributes.
    pub fn new(id: CardId, name: &str, card_type: CardTypeId) -> (card: Self)
        ensures
            card.id == id,
            card.name@ == name@,
            card.card_type == card_type,
            card.attrs() == Map::<Seq<char>, AttributeValue>::empty(),
    {
        CardDefinition { id, name: name.to_owned(), card_type, attributes: attributes_new() }
    }

    /// The same definition with one attribute set. The key and the value
    /// are what `Into` makes of the arguments.
    pub fn with_attr<K: Into<AttributeKey>, V: Into<AttributeValue>>(self, key: K, value: V) -> (card:
        Self)
        ensures
            card.id == self.id,
            card.name == self.name,
            card.card_type == self.card_type,
            exists|made_key: AttributeKey, made_value: AttributeValue|
                #![trigger self.attrs().insert(made_key.0@, made_value)]
                call_ensures(K::into, (key,), made_key) && call_ensures(
                    V::into,
                    (value,),
                    made_value,
                ) && card.attrs() == self.attrs().insert(made_key.0@, made_value),
    {
        let mut card = self;
        let made_key: AttributeKey = key.into();
        let made_value: AttributeValue = value.into();
        assert(call_ensures(K::into, (key,), made_key));
        assert(call_ensures(V::into, (value,), made_value));
        let ghost entries = self.attrs().insert(made_key.0@, made_value);
        attributes_insert(&mut card.attributes, made_key, made_value);
        card
    }

    /// The attribute stored under `key`, if any.
    pub fn get_attr(&self, key: &str) -> (value: Option<&AttributeValue>)
        ensures
            value == match self.attr(key@) {
                Some(found) => Some(&found),
                None => None,
            },
    {
        let wanted = AttributeKey::new(key);
        attributes_get(&self.attributes, &wanted)
    }

    /// The integer stored under `key`; `default` where there is none.
    pub fn get_int(&self, key: &str, default: i64) -> (value: i64)
        ensures
            value == match self.attr(key@) {
                Some(AttributeValue::Int(found)) => found,
                _ => default,
            },
    {
        match self.get_attr(key) {
            Some(AttributeValue::Int(found)) => *found,
            _ => default,
        }
    }

    /// The boolean stored under `key`; `default` where there is none.
    pub fn get_bool(&self, key: &str, default: bool) -> (value: bool)
        ensures
            value == match self.attr(key@) {
                Some(AttributeValue::Bool(found)) => found,
                _ => default,
            },
    {
        match self.get_attr(key) {
            Some(AttributeValue::Bool(found)) => *found,
            _ => default,
        }
    }

    /// The text stored under `key`, if there is one.
    pub fn get_text(&self, key: &str) -> (value: Option<&str>)
        ensures
            match self.attr(key@) {
                Some(AttributeValue::Text(text)) => value matches Some(found) && found@ == text@,
                _ => value is None,
            },
    {
        match self.get_attr(key) {
            Some(found) => found.as_text(),
            None => None,
        }
    }
}

} // verus!
