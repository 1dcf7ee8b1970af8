//! Events: structured records of what happened in a game.
//!
//! The engine gives no meaning to event types. A game numbers its own and
//! decides what the values and zones of each kind of event stand for; by
//! convention the first value of a damage event is the amount, and the
//! zones of a zone change are where the card came from and where it went.

use crate::base::config::ZoneId;
use crate::base::entity::EntityId;
use crate::base::player::PlayerId;
use crate::base::state::copy_vec;
use vstd::prelude::*;

verus! {

/// Identifier of a kind of event.
#[derive(Clone, Copy, Debug, PartialEq, Eq, Hash, Structural)]
pub struct EventTypeId(pub u32);

impl EventTypeId {
    /// The identifier as text.
    pub fn to_string(&self) -> (text: String)
        ensures
            text@ == "EventType("@ + crate::base::text::decimal(self.0 as nat) + ")"@,
    {
        crate::base::text::labelled("EventType(", self.0 as u64, ")")
    }

    /// An event type identifier.
    pub fn new(id: u32) -> (event_type: Self)
        ensures
            event_type.0 == id,
    {
        EventTypeId(id)
    }

    /// The raw number.
    pub fn raw(self) -> (raw: u32)
        ensures
            raw == self.0,
    {
        self.0
    }
}

/// Something that happened.
#[derive(Debug, PartialEq, Eq)]
pub struct GameEvent {
    /// The kind of event.
    pub event_type: EventTypeId,
    /// What caused it.
    pub source: Option<EntityId>,
    /// What it happened to.
    pub target: Option<EntityId>,
    /// The player it concerns.
    pub player: Option<PlayerId>,
    /// Other entities involved.
    pub other_entities: Vec<EntityId>,
    /// Numbers, with the meaning the game gives their positions.
    pub values: Vec<i64>,
    /// Zones, with the meaning the game gives their positions.
    pub zones: Vec<ZoneId>,
    /// Free-form tags.
    pub tags: Vec<String>,
}

/// An event as plain values.
pub struct GameEventView {
    pub event_type: EventTypeId,
    pub source: Option<EntityId>,
    pub target: Option<EntityId>,
    pub player: Option<PlayerId>,
    pub other_entities: Seq<EntityId>,
    pub values: Seq<i64>,
    pub zones: Seq<ZoneId>,
    pub tags: Seq<Seq<char>>,
}

impl GameEventView {
    /// The event of a kind about which nothing else is said.
    pub open spec fn bare(event_type: EventTypeId) -> GameEventView {
        GameEventView {
            event_type,
            source: None,
            target: None,
            player: None,
            other_entities: Seq::empty(),
            values: Seq::empty(),
            zones: Seq::empty(),
            tags: Seq::empty(),
        }
    }

    /// The value at a position; `default` where there is none.
    pub open spec fn value(self, index: int, default: i64) -> i64 {
        if 0 <= index < self.values.len() {
            self.values[index]
        } else {
            default
        }
    }

    /// Whether the event carries a tag.
    pub open spec fn has_tag(self, tag: Seq<char>) -> bool {
        self.tags.contains(tag)
    }
}

/// Texts as plain values.
pub open spec fn text_views(texts: Seq<String>) -> Seq<Seq<char>> {
    Seq::new(texts.len(), |i: int| texts[i]@)
}

impl View for GameEvent {
    type V = GameEventView;

    open spec fn view(&self) -> GameEventView {
        GameEventView {
            event_type: self.event_type,
            source: self.source,
            target: self.target,
            player: self.player,
            other_entities: self.other_entities@,
            values: self.values@,
            zones: self.zones@,
            tags: text_views(self.tags@),
        }
    }
}

impl GameEvent {
    /// An event of a kind, about which nothing else is said.
    pub fn new(event_type: EventTypeId) -> (event: Self)
        ensures
            event@ == GameEventView::bare(event_type),
    {
        let event = GameEvent {
            event_type,
            source: None,
            target: None,
            player: None,
            other_entities: Vec::new(),
            values: Vec::new(),
            zones: Vec::new(),
            tags: Vec::new(),
        };
        assert(event@.tags =~= Seq::<Seq<char>>::empty());
        event
    }

    /// The same event with a source.
    pub fn with_source(self, source: EntityId) -> (event: Self)
        ensures
            event@ == (GameEventView { source: Some(source), ..self@ }),
    {
        let mut event = self;
        event.source = Some(source);
        event
    }

    /// The same event with a target.
    pub fn with_target(self, target: EntityId) -> (event: Self)
        ensures
            event@ == (GameEventView { target: Some(target), ..self@ }),
    {
        let mut event = self;
        event.target = Some(target);
        event
    }

    /// The same event with a player.
    pub fn with_player(self, player: PlayerId) -> (event: Self)
        ensures
            event@ == (GameEventView { player: Some(player), ..self@ }),
    {
        let mut event = self;
        event.player = Some(player);
        event
    }

    /// The same event with one more entity involved.
    pub fn with_entity(self, entity: EntityId) -> (event: Self)
        ensures
            event@ == (GameEventView {
                other_entities: self@.other_entities.push(entity),
                ..self@
            }),
    {
        let mut event = self;
        event.other_entities.push(entity);
        event
    }

    /// The same event with one more value.
    pub fn with_value(self, value: i64) -> (event: Self)
        ensures
            event@ == (GameEventView { values: self@.values.push(value), ..self@ }),
    {
        let mut event = self;
        event.values.push(value);
        event
    }

    /// The same event with one more zone.
    pub fn with_zone(self, zone: ZoneId) -> (event: Self)
        ensures
            event@ == (GameEventView { zones: self@.zones.push(zone), ..self@ }),
    {
        let mut event = self;
        event.zones.push(zone);
        event
    }

    /// The same event with one more tag.
    pub fn with_tag(self, tag: &str) -> (event: Self)
        ensures
            event@ == (GameEventView { tags: self@.tags.push(tag@), ..self@ }),
    {
        let mut event = self;
        event.tags.push(tag.to_owned());
        assert(event@.tags =~= self@.tags.push(tag@));
        event
    }

    /// The value at a position; `default` where there is none.
    pub fn value(&self, index: usize, default: i64) -> (value: i64)
        ensures
            value == self@.value(index as int, default),
    {
        if index < self.values.len() {
            self.values[index]
        } else {
            default
        }
    }

    /// The zone at a position, if there is one.
    pub fn zone(&self, index: usize) -> (zone: Option<ZoneId>)
        ensures
            zone == (if index < self@.zones.len() {
                Some(self@.zones[index as int])
            } else {
                None
            }),
    {
        if index < self.zones.len() {
            Some(self.zones[index])
        } else {
            None
        }
    }

    /// Whether the event carries a tag.
    pub fn has_tag(&self, tag: &str) -> (found: bool)
        ensures
            found == self@.has_tag(tag@),
    {
        let wanted = tag.to_owned();
        let mut next: usize = 0;
        while next < self.tags.len()
            invariant
                next <= self.tags@.len(),
                wanted@ == tag@,
                forall|i: int| 0 <= i < next ==> self@.tags[i] != tag@,
            decreases self.tags@.len() - next,
        {
            if self.tags[next] == wanted {
                assert(self@.tags[next as int] == tag@);
                return true;
            }
            next = next + 1;
        }
        false
    }

    /// An event of damage: `source` dealt `amount` to `target`.
    pub fn damage(event_type: EventTypeId, source: EntityId, target: EntityId, amount: i64) -> (event:
        Self)
        ensures
            event@ == (GameEventView {
                source: Some(source),
                target: Some(target),
                values: seq![amount],
                ..GameEventView::bare(event_type)
            }),
    {
        let event = GameEvent::new(event_type).with_source(source).with_target(target).with_value(
            amount,
        );
        assert(event@.values =~= seq![amount]);
        event
    }

    /// An event of a card changing zones.
    pub fn zone_change(event_type: EventTypeId, card: EntityId, from: ZoneId, to: ZoneId) -> (event:
        Self)
        ensures
            event@ == (GameEventView {
                target: Some(card),
                zones: seq![from, to],
                ..GameEventView::bare(event_type)
            }),
    {
        let event = GameEvent::new(event_type).with_target(card).with_zone(from).with_zone(to);
        assert(event@.zones =~= seq![from, to]);
        event
    }

    /// An event that concerns a player.
    pub fn for_player(event_type: EventTypeId, player: PlayerId) -> (event: Self)
        ensures
            event@ == (GameEventView { player: Some(player), ..GameEventView::bare(event_type) }),
    {
        GameEvent::new(event_type).with_player(player)
    }

    /// An event that a card caused under a player's control.
    pub fn for_card(event_type: EventTypeId, card: EntityId, controller: PlayerId) -> (event: Self)
        ensures
            event@ == (GameEventView {
                source: Some(card),
                player: Some(controller),
                ..GameEventView::bare(event_type)
            }),
    {
        GameEvent::new(event_type).with_source(card).with_player(controller)
    }
}

impl Clone for GameEvent {
    fn clone(&self) -> (copy: Self)
        ensures
            copy@ == self@,
    {
        let mut tags: Vec<String> = Vec::new();
        let mut next: usize = 0;
        while next < self.tags.len()
            invariant
                next <= self.tags@.len(),
                tags@.len() == next,
                forall|i: int| 0 <= i < next ==> (#[trigger] tags@[i])@ == self.tags@[i]@,
            decreases self.tags@.len() - next,
        {
            tags.push(self.tags[next].clone());
            next = next + 1;
        }
        let copy = GameEvent {
            event_type: self.event_type,
            source: self.source,
            target: self.target,
            player: self.player,
            other_entities: copy_vec(&self.other_entities),
            values: copy_vec(&self.values),
            zones: copy_vec(&self.zones),
            tags,
        };
        assert(copy@.tags =~= self@.tags);
        copy
    }
}

/// What a game says of one of its kinds of event.
#[derive(Clone, Debug)]
pub struct EventTypeConfig {
    pub id: EventTypeId,
    pub name: String,
    pub description: String,
}

impl EventTypeConfig {
    /// A kind of event without a description.
    pub fn new(id: EventTypeId, name: &str) -> (config: Self)
        ensures
            config.id == id,
            config.name@ == name@,
            config.description@ == Seq::<char>::empty(),
    {
        EventTypeConfig { id, name: name.to_owned(), description: String::new() }
    }

    /// The same kind of event, described.
    pub fn with_description(self, desc: &str) -> (config: Self)
        ensures
            config.id == self.id,
            config.name == self.name,
            config.description@ == desc@,
    {
        let mut config = self;
        config.description = desc.to_owned();
        config
    }
}

} // verus!
