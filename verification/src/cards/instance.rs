//! Card instances: one card in one game.
//!
//! An instance knows its definition, its owner and its controller (a game
//! can hand a card over without changing who owns it), the zone it is in,
//! and a map of named integers for everything else: counters, damage,
//! whether it is tapped.

use super::definition::CardId;
use crate::base::config::ZoneId;
use crate::base::entity::EntityId;
use crate::base::player::PlayerId;
use crate::maps::{
    state_entries, state_map_clear, state_map_clone, state_map_get, state_map_insert,
    state_map_new, state_map_remove, state_value, StateMap,
};
use vstd::prelude::*;

verus! {

/// One card in one game.
#[derive(Debug, PartialEq, Eq)]
pub struct CardInstance {
    /// The entity this card is.
    pub entity_id: EntityId,
    /// The definition it is an instance of.
    pub card_id: CardId,
    /// Who owns it; no one, for a neutral card.
    pub owner: Option<PlayerId>,
    /// Who controls it.
    pub controller: Option<PlayerId>,
    /// The zone it is in.
    pub zone: ZoneId,
    /// Whether it lies face down.
    pub face_down: bool,
    /// Its named values.
    pub state: StateMap,
}

/// A card instance as plain values.
pub struct CardInstanceView {
    pub entity_id: EntityId,
    pub card_id: CardId,
    pub owner: Option<PlayerId>,
    pub controller: Option<PlayerId>,
    pub zone: ZoneId,
    pub face_down: bool,
    pub state: Map<Seq<char>, i64>,
}

impl View for CardInstance {
    type V = CardInstanceView;

    open spec fn view(&self) -> CardInstanceView {
        CardInstanceView {
            entity_id: self.entity_id,
            card_id: self.card_id,
            owner: self.owner,
            controller: self.controller,
            zone: self.zone,
            face_down: self.face_down,
            state: state_entries(self.state),
        }
    }
}

impl CardInstanceView {
    /// The value stored under `key`; `default` where there is none.
    pub open spec fn value(self, key: Seq<char>, default: i64) -> i64 {
        state_value(self.state, key, default)
    }

    /// The same card with `value` stored under `key`.
    pub open spec fn with_value(self, key: Seq<char>, value: i64) -> CardInstanceView {
        CardInstanceView { state: self.state.insert(key, value), ..self }
    }

    /// The same card in another zone.
    pub open spec fn in_zone(self, zone: ZoneId) -> CardInstanceView {
        CardInstanceView { zone, ..self }
    }
}

/// The state after the values under the first `count` of `keys` are gone.
pub open spec fn without_keys(state: Map<Seq<char>, i64>, keys: Seq<&str>, count: int) -> Map<
    Seq<char>,
    i64,
>
    decreases count,
{
    if count <= 0 {
        state
    } else {
        without_keys(state, keys, count - 1).remove(keys[count - 1]@)
    }
}

impl CardInstance {
    /// A face-up card without state that `owner` owns and controls.
    pub fn new(entity_id: EntityId, card_id: CardId, owner: PlayerId, zone: ZoneId) -> (card: Self)
        ensures
            card@ == (CardInstanceView {
                entity_id,
                card_id,
                owner: Some(owner),
                controller: Some(owner),
                zone,
                face_down: false,
                state: Map::empty(),
            }),
    {
        CardInstance {
            entity_id,
            card_id,
            owner: Some(owner),
            controller: Some(owner),
            zone,
            face_down: false,
            state: state_map_new(),
        }
    }

    /// A face-up card without state that no one owns or controls.
    pub fn neutral(entity_id: EntityId, card_id: CardId, zone: ZoneId) -> (card: Self)
        ensures
            card@ == (CardInstanceView {
                entity_id,
                card_id,
                owner: None,
                controller: None,
                zone,
                face_down: false,
                state: Map::empty(),
            }),
    {
        CardInstance {
            entity_id,
            card_id,
            owner: None,
            controller: None,
            zone,
            face_down: false,
            state: state_map_new(),
        }
    }

    /// Whether no one owns the card.
    pub fn is_neutral(&self) -> (neutral: bool)
        ensures
            neutral == (self.owner is None),
    {
        self.owner.is_none()
    }

    /// The owner of a card that has one.
    pub fn owner_unchecked(&self) -> (owner: PlayerId)
        requires
            self.owner is Some,
        ensures
            Some(owner) == self.owner,
    {
        match self.owner {
            Some(owner) => owner,
            None => vstd::pervasive::unreached(),
        }
    }

    /// The controller of a card that has one.
    pub fn controller_unchecked(&self) -> (controller: PlayerId)
        requires
            self.controller is Some,
        ensures
            Some(controller) == self.controller,
    {
        match self.controller {
            Some(controller) => controller,
            None => vstd::pervasive::unreached(),
        }
    }

    /// Hands the card to another controller, or to none.
    pub fn set_controller(&mut self, controller: Option<PlayerId>)
        ensures
            final(self)@ == (CardInstanceView { controller, ..old(self)@ }),
    {
        self.controller = controller;
    }

    /// The value stored under `key`; `default` where there is none.
    pub fn get_state(&self, key: &str, default: i64) -> (value: i64)
        ensures
            value == self@.value(key@, default),
    {
        match state_map_get(&self.state, key) {
            Some(value) => value,
            None => default,
        }
    }

    /// Stores `value` under `key`.
    pub fn set_state(&mut self, key: &str, value: i64)
        ensures
            final(self)@ == old(self)@.with_value(key@, value),
    {
        state_map_insert(&mut self.state, key.to_owned(), value);
    }

    /// Adds `delta` to the value under `key`, which counts as 0 where there
    /// is none. The sum wraps around at the ends of `i64`.
    pub fn modify_state(&mut self, key: &str, delta: i64)
        ensures
            final(self)@ == old(self)@.with_value(
                key@,
                old(self)@.value(key@, 0).wrapping_add(delta),
            ),
    {
        let current = self.get_state(key, 0);
        state_map_insert(&mut self.state, key.to_owned(), current.wrapping_add(delta));
    }

    /// Whether the value under `key` is set and not 0.
    pub fn has_flag(&self, key: &str) -> (set: bool)
        ensures
            set == (self@.value(key@, 0) != 0),
    {
        self.get_state(key, 0) != 0
    }

    /// Stores 1 under `key` for `true`, 0 for `false`.
    pub fn set_flag(&mut self, key: &str, value: bool)
        ensures
            final(self)@ == old(self)@.with_value(
                key@,
                if value {
                    1i64
                } else {
                    0i64
                },
            ),
    {
        self.set_state(
            key,
            if value {
                1
            } else {
                0
            },
        );
    }

    /// Forgets every value.
    pub fn clear_state(&mut self)
        ensures
            final(self)@ == (CardInstanceView { state: Map::empty(), ..old(self)@ }),
    {
        state_map_clear(&mut self.state);
    }

    /// Forgets the values under the given keys.
    pub fn clear_state_keys(&mut self, keys: &[&str])
        ensures
            final(self)@ == (CardInstanceView {
                state: without_keys(old(self)@.state, keys@, keys@.len() as int),
                ..old(self)@
            }),
    {
        let mut next: usize = 0;
        while next < keys.len()
            invariant
                next <= keys@.len(),
                self@ == (CardInstanceView {
                    state: without_keys(old(self)@.state, keys@, next as int),
                    ..old(self)@
                }),
            decreases keys@.len() - next,
        {
            state_map_remove(&mut self.state, keys[next]);
            next = next + 1;
        }
    }
}

impl Clone for CardInstance {
    fn clone(&self) -> (copy: Self)
        ensures
            copy@ == self@,
    {
        CardInstance {
            entity_id: self.entity_id,
            card_id: self.card_id,
            owner: self.owner,
            controller: self.controller,
            zone: self.zone,
            face_down: self.face_down,
            state: state_map_clone(&self.state),
        }
    }
}

/// After the given keys are forgotten none of them has a value, and every
/// other value is as it was.
pub proof fn lemma_without_keys(state: Map<Seq<char>, i64>, keys: Seq<&str>, count: int)
    requires
        0 <= count <= keys.len(),
    ensures
        forall|i: int|
            0 <= i < count ==> !without_keys(state, keys, count).contains_key(
                (#[trigger] keys[i])@,
            ),
        forall|key: Seq<char>|
            (forall|i: int| 0 <= i < count ==> (#[trigger] keys[i])@ != key) ==> (
            #[trigger] without_keys(state, keys, count).contains_key(key)
                == state.contains_key(key)) && (state.contains_key(key) ==> without_keys(
                state,
                keys,
                count,
            )[key] == state[key]),
    decreases count,
{
    if count > 0 {
        lemma_without_keys(state, keys, count - 1);
        let before = without_keys(state, keys, count - 1);
        assert(without_keys(state, keys, count) == before.remove(keys[count - 1]@));
    }
}

} // verus!
