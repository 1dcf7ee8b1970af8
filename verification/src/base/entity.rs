//! Entity identifiers.
//!
//! Every game object has an `EntityId`. The identifiers below the player
//! count belong to the players; everything above is handed out by the game
//! state from a counter that only grows.

use super::player::PlayerId;
use vstd::prelude::*;

verus! {

/// Identifier of a player, card, token or ability.
#[derive(Clone, Copy, Debug, PartialEq, Eq, Hash, Structural)]
pub struct EntityId(pub u32);

/// The number of identifiers reserved for players when a game is said to
/// have `player_count` of them: the count cut down to 32 bits.
pub open spec fn reserved_ids(player_count: usize) -> int {
    (player_count as int) % 0x1_0000_0000
}

impl EntityId {
    /// The entity of the player with the given index.
    pub fn player_id(index: u8) -> (id: Self)
        ensures
            id.0 == index,
    {
        EntityId(index as u32)
    }

    /// The first identifier that no player owns.
    pub fn first_non_player(player_count: usize) -> (first: u32)
        ensures
            first == reserved_ids(player_count),
    {
        ((player_count as u64) % 0x1_0000_0000u64) as u32
    }

    /// Whether this identifier is one of the players'.
    pub open spec fn spec_is_player(self, player_count: usize) -> bool {
        (self.0 as int) < reserved_ids(player_count)
    }

    /// Whether this identifier is one of the players'.
    #[verifier::when_used_as_spec(spec_is_player)]
    pub fn is_player(self, player_count: usize) -> (b: bool)
        ensures
            b == self.spec_is_player(player_count),
    {
        self.0 < Self::first_non_player(player_count)
    }

    /// The identifier as text.
    pub fn to_string(&self) -> (text: String)
        ensures
            text@ == "Entity("@ + crate::base::text::decimal(self.0 as nat) + ")"@,
    {
        crate::base::text::labelled("Entity(", self.0 as u64, ")")
    }

    /// The player index behind a player's identifier, cut down to 8 bits.
    pub open spec fn spec_as_player_index(self, player_count: usize) -> Option<u8> {
        if self.spec_is_player(player_count) {
            Some(((self.0 as int) % 256) as u8)
        } else {
            None
        }
    }

    /// The player index, if this is a player.
    #[verifier::when_used_as_spec(spec_as_player_index)]
    pub fn as_player_index(self, player_count: usize) -> (index: Option<u8>)
        ensures
            index == self.spec_as_player_index(player_count),
    {
        if self.is_player(player_count) {
            Some((self.0 % 256) as u8)
        } else {
            None
        }
    }

    /// The raw number.
    pub fn raw(self) -> (raw: u32)
        ensures
            raw == self.0,
    {
        self.0
    }

    /// The player, if this is a player.
    pub fn as_player(self, player_count: usize) -> (player: Option<PlayerId>)
        ensures
            player == match self.spec_as_player_index(player_count) {
                Some(index) => Some(PlayerId(index)),
                None => None,
            },
    {
        match self.as_player_index(player_count) {
            Some(index) => Some(PlayerId::new(index)),
            None => None,
        }
    }

    /// The entity of a player.
    pub fn player(id: PlayerId) -> (entity: Self)
        ensures
            entity.0 == id.0,
    {
        EntityId(id.0 as u32)
    }
}

impl From<u32> for EntityId {
    fn from(id: u32) -> (entity: Self) {
        EntityId(id)
    }
}

impl vstd::std_specs::convert::FromSpecImpl<u32> for EntityId {
    open spec fn obeys_from_spec() -> bool {
        true
    }

    open spec fn from_spec(id: u32) -> Self {
        EntityId(id)
    }
}

} // verus!
