//! Player identifiers and per-player storage.

use vstd::prelude::*;

verus! {

/// Identifier of a player; the first player is `PlayerId(0)`.
#[derive(Clone, Copy, Debug, PartialEq, Eq, Hash, Structural)]
pub struct PlayerId(pub u8);

impl PlayerId {
    /// A player identifier.
    pub fn new(id: u8) -> (player: Self)
        ensures
            player.0 == id,
    {
        PlayerId(id)
    }

    /// The player's index.
    pub open spec fn spec_index(self) -> usize {
        self.0 as usize
    }

    /// The player's index.
    #[verifier::when_used_as_spec(spec_index)]
    pub fn index(self) -> (index: usize)
        ensures
            index == self.0,
    {
        self.0 as usize
    }

    /// The identifier as text.
    pub fn to_string(&self) -> (text: String)
        ensures
            text@ == "Player "@ + crate::base::text::decimal(self.0 as nat) + ""@,
    {
        crate::base::text::labelled("Player ", self.0 as u64, "")
    }

    /// The players of a game, in index order. The count is cut down to
    /// 8 bits, as player identifiers are.
    pub fn all(player_count: usize) -> (players: Vec<PlayerId>)
        ensures
            players@.len() == (player_count as int) % 256,
            forall|i: int| 0 <= i < players@.len() ==> (#[trigger] players@[i]).0 == i,
    {
        let bound: u8 = (player_count % 256) as u8;
        let mut players: Vec<PlayerId> = Vec::new();
        let mut next: u8 = 0;
        while next < bound
            invariant
                next <= bound,
                players@.len() == next,
                forall|i: int| 0 <= i < players@.len() ==> (#[trigger] players@[i]).0 == i,
            decreases bound - next,
        {
            players.push(PlayerId(next));
            next = next + 1;
        }
        players
    }
}

/// One value per player, in index order.
#[derive(Clone, Debug, PartialEq, Eq, Hash)]
pub struct PlayerMap<T> {
    data: Vec<T>,
}

impl<T> View for PlayerMap<T> {
    type V = Seq<T>;

    closed spec fn view(&self) -> Seq<T> {
        self.data@
    }
}

impl<T> PlayerMap<T> {
    /// A map for `player_count` players whose entries `factory` makes, one
    /// call per player in index order.
    pub fn new<F: Fn(PlayerId) -> T>(player_count: usize, factory: F) -> (map: Self)
        requires
            0 < player_count <= 255,
            forall|player: PlayerId|
                (player.0 as int) < player_count ==> #[trigger] call_requires(factory, (player,)),
        ensures
            map@.len() == player_count,
            forall|i: int|
                0 <= i < player_count ==> call_ensures(
                    factory,
                    (PlayerId(i as u8),),
                    #[trigger] map@[i],
                ),
    {
        let mut data: Vec<T> = Vec::new();
        let mut next: usize = 0;
        while next < player_count
            invariant
                next <= player_count <= 255,
                data@.len() == next,
                forall|player: PlayerId|
                    (player.0 as int) < player_count ==> #[trigger] call_requires(factory, (player,)),
                forall|i: int|
                    0 <= i < next ==> call_ensures(
                        factory,
                        (PlayerId(i as u8),),
                        #[trigger] data@[i],
                    ),
            decreases player_count - next,
        {
            let player = PlayerId(next as u8);
            assert(call_requires(factory, (player,)));
            let value = factory(player);
            data.push(value);
            next = next + 1;
        }
        PlayerMap { data }
    }

    /// A map whose entries are all clones of `value`.
    pub fn with_value(player_count: usize, value: T) -> (map: Self) where T: Clone
        requires
            0 < player_count <= 255,
        ensures
            map@.len() == player_count,
            forall|i: int| 0 <= i < player_count ==> cloned(value, #[trigger] map@[i]),
    {
        let mut data: Vec<T> = Vec::new();
        let mut next: usize = 0;
        while next < player_count
            invariant
                next <= player_count,
                data@.len() == next,
                forall|i: int| 0 <= i < next ==> cloned(value, #[trigger] data@[i]),
            decreases player_count - next,
        {
            data.push(value.clone());
            next = next + 1;
        }
        PlayerMap { data }
    }

    /// A map whose entries are all the type's default.
    pub fn with_default(player_count: usize) -> (map: Self) where T: Default
        requires
            0 < player_count <= 255,
        ensures
            map@.len() == player_count,
            forall|i: int| 0 <= i < player_count ==> call_ensures(T::default, (), #[trigger] map@[i]),
    {
        let mut data: Vec<T> = Vec::new();
        let mut next: usize = 0;
        while next < player_count
            invariant
                next <= player_count,
                data@.len() == next,
                forall|i: int| 0 <= i < next ==> call_ensures(T::default, (), #[trigger] data@[i]),
            decreases player_count - next,
        {
            data.push(T::default());
            next = next + 1;
        }
        PlayerMap { data }
    }

    /// A map of the same players whose entries `copy` makes of this map's,
    /// one call per player in index order.
    pub fn clone_with<F: Fn(&T) -> T>(&self, copy: F) -> (map: Self)
        requires
            forall|value: &T| #[trigger] call_requires(copy, (value,)),
        ensures
            map@.len() == self@.len(),
            forall|i: int|
                0 <= i < self@.len() ==> call_ensures(copy, (&self@[i],), #[trigger] map@[i]),
    {
        let mut data: Vec<T> = Vec::new();
        let mut next: usize = 0;
        while next < self.data.len()
            invariant
                next <= self.data@.len(),
                data@.len() == next,
                forall|value: &T| #[trigger] call_requires(copy, (value,)),
                forall|i: int|
                    0 <= i < next ==> call_ensures(copy, (&self.data@[i],), #[trigger] data@[i]),
            decreases self.data@.len() - next,
        {
            let value = copy(&self.data[next]);
            data.push(value);
            next = next + 1;
        }
        PlayerMap { data }
    }

    /// The number of players.
    pub open spec fn spec_player_count(&self) -> usize {
        self@.len() as usize
    }

    /// The number of players.
    #[verifier::when_used_as_spec(spec_player_count)]
    pub fn player_count(&self) -> (count: usize)
        ensures
            count == self@.len(),
    {
        self.data.len()
    }

    /// The entry of a player.
    pub fn get(&self, player: PlayerId) -> (value: &T)
        requires
            (player.0 as int) < self@.len(),
        ensures
            *value == self@[player.0 as int],
    {
        &self.data[player.index()]
    }

    /// The entry of a player, to change in place; no other entry changes.
    pub fn get_mut(&mut self, player: PlayerId) -> (value: &mut T)
        requires
            (player.0 as int) < old(self)@.len(),
        ensures
            *value == old(self)@[player.0 as int],
            final(self)@ == old(self)@.update(player.0 as int, *final(value)),
    {
        &mut self.data[player.index()]
    }

    /// Puts `value` in a player's entry; no other entry changes.
    pub fn set(&mut self, player: PlayerId, value: T)
        requires
            (player.0 as int) < old(self)@.len(),
        ensures
            final(self)@ == old(self)@.update(player.0 as int, value),
    {
        self.data[player.index()] = value;
    }

    /// The entries with their players, in index order.
    pub fn iter(&self) -> (pairs: Vec<(PlayerId, &T)>)
        requires
            self@.len() <= 256,
        ensures
            pairs@.len() == self@.len(),
            forall|i: int|
                0 <= i < pairs@.len() ==> (#[trigger] pairs@[i]).0.0 == i && *pairs@[i].1
                    == self@[i],
    {
        let mut pairs: Vec<(PlayerId, &T)> = Vec::new();
        let mut next: usize = 0;
        while next < self.data.len()
            invariant
                next <= self.data@.len() <= 256,
                pairs@.len() == next,
                forall|i: int|
                    0 <= i < pairs@.len() ==> (#[trigger] pairs@[i]).0.0 == i && *pairs@[i].1
                        == self.data@[i],
            decreases self.data@.len() - next,
        {
            pairs.push((PlayerId(next as u8), &self.data[next]));
            next = next + 1;
        }
        pairs
    }

    /// The players of this map, in index order.
    pub fn player_ids(&self) -> (players: Vec<PlayerId>)
        ensures
            players@.len() == (self@.len() as int) % 256,
            forall|i: int| 0 <= i < players@.len() ==> (#[trigger] players@[i]).0 == i,
    {
        PlayerId::all(self.data.len())
    }
}

impl<T> std::ops::Index<PlayerId> for PlayerMap<T> {
    type Output = T;

    fn index(&self, player: PlayerId) -> (value: &T)
        ensures
            *value == self@[player.0 as int],
    {
        self.get(player)
    }
}

impl<T> vstd::std_specs::core::IndexSpecImpl<PlayerId> for PlayerMap<T> {
    open spec fn index_req(&self, player: &PlayerId) -> bool {
        (player.0 as int) < self@.len()
    }
}

} // verus!
