//! The state of a game.
//!
//! `PublicState` is what every player may know: whose turn it is, the
//! phase, each player's named values, how many cards each player holds.
//! `GameState` adds what is hidden: the hands themselves, the decks, the
//! card instances, the zones and the random number generator.
//!
//! Two things are kept true by every operation of this file: a player's
//! hand size is the length of the player's hand, and a card instance names
//! the zone that the zone manager has it in.

use super::action::{ActionRecord, ActionRecordView};
use super::config::PhaseId;
use super::entity::EntityId;
use super::player::{PlayerId, PlayerMap};
use super::rng::{arranged, fork_seed, shuffled, GameRng, GameRngState};
use crate::cards::definition::CardId;
use crate::cards::instance::{CardInstance, CardInstanceView};
use crate::maps::{
    id_map_clone, id_map_get, id_map_get_mut, id_map_insert, id_map_new, state_entries,
    state_map_clear, state_map_clone, state_map_get, state_map_insert, state_map_new,
    state_value, IdMap, StateMap,
};
use crate::zones::manager::{ZoneManager, ZoneView};
use vstd::prelude::*;

verus! {

/// `im::Vector`, the persistent vector that keeps the action history.
/// Nothing is said of what is inside.
#[verifier::external_type_specification]
#[verifier::external_body]
#[verifier::reject_recursive_types(A)]
pub struct ExImVector<A>(im::Vector<A>);

/// `im::HashSet`, the persistent set that keeps the known cards of a
/// hand. Nothing is said of what is inside.
#[verifier::external_type_specification]
#[verifier::external_body]
#[verifier::reject_recursive_types(A)]
#[verifier::reject_recursive_types(S)]
pub struct ExImHashSet<A, S>(im::HashSet<A, S>);

/// The records an action history holds, oldest first.
pub uninterp spec fn history_items(history: im::Vector<ActionRecord>) -> Seq<ActionRecordView>;

/// The cards a set of known cards holds.
pub uninterp spec fn known_cards(cards: im::HashSet<CardId>) -> Set<CardId>;

/// `im::Vector::new`: a history without records.
#[verifier::external_body]
fn history_new() -> (history: im::Vector<ActionRecord>)
    ensures
        history_items(history) == Seq::<ActionRecordView>::empty(),
{
    im::Vector::new()
}

/// `im::Vector::push_back`: the record is added last.
#[verifier::external_body]
fn history_push_back(history: &mut im::Vector<ActionRecord>, record: ActionRecord)
    ensures
        history_items(*final(history)) == history_items(*old(history)).push(record@),
{
    history.push_back(record);
}

/// `im::Vector::clone`: a history of the same records.
#[verifier::external_body]
fn history_clone(history: &im::Vector<ActionRecord>) -> (copy: im::Vector<ActionRecord>)
    ensures
        history_items(copy) == history_items(*history),
{
    history.clone()
}

/// `im::HashSet::new`: a set without cards.
#[verifier::external_body]
fn known_new() -> (cards: im::HashSet<CardId>)
    ensures
        known_cards(cards) == Set::<CardId>::empty(),
{
    im::HashSet::new()
}

/// `im::HashSet::clone`: a set of the same cards.
#[verifier::external_body]
fn known_clone(cards: &im::HashSet<CardId>) -> (copy: im::HashSet<CardId>)
    ensures
        known_cards(copy) == known_cards(*cards),
{
    cards.clone()
}

/// A copy of a vector of plain values.
pub fn copy_vec<T: Copy>(items: &Vec<T>) -> (copy: Vec<T>)
    ensures
        copy@ == items@,
{
    let mut copy: Vec<T> = Vec::new();
    let mut next: usize = 0;
    while next < items.len()
        invariant
            next <= items@.len(),
            copy@ == items@.take(next as int),
        decreases items@.len() - next,
    {
        copy.push(items[next]);
        proof {
            assert(items@.take(next as int + 1) =~= items@.take(next as int).push(
                items@[next as int],
            ));
        }
        next = next + 1;
    }
    proof {
        assert(items@.take(items@.len() as int) =~= items@);
    }
    copy
}

/// What every player may know of a game.
#[derive(Debug)]
pub struct PublicState {
    /// The number of players, 1 to 255.
    pub player_count: usize,
    /// The phase of the turn.
    pub phase: PhaseId,
    /// The number of the turn; the first turn is 1.
    pub turn_number: u32,
    /// How many actions were numbered in this turn.
    pub action_sequence: u32,
    /// Whose turn it is.
    pub active_player: PlayerId,
    /// Who may act now; more than one in a simultaneous game.
    pub priority_players: Vec<PlayerId>,
    /// Each player's named values.
    pub player_state: PlayerMap<StateMap>,
    /// The named values of the turn.
    pub turn_state: StateMap,
    /// How many cards each player holds.
    pub hand_sizes: PlayerMap<u32>,
    /// Which cards each player is known to hold.
    pub known_hand_cards: PlayerMap<im::HashSet<CardId>>,
    /// Every action taken, oldest first.
    pub action_history: im::Vector<ActionRecord>,
}

/// The public state as plain values.
pub struct PublicStateView {
    pub player_count: usize,
    pub phase: PhaseId,
    pub turn_number: u32,
    pub action_sequence: u32,
    pub active_player: PlayerId,
    pub priority_players: Seq<PlayerId>,
    pub player_state: Seq<Map<Seq<char>, i64>>,
    pub turn_state: Map<Seq<char>, i64>,
    pub hand_sizes: Seq<u32>,
    pub known_hand_cards: Seq<Set<CardId>>,
    pub action_history: Seq<ActionRecordView>,
}

impl PublicStateView {
    /// There are 1 to 255 players, every per-player list has one entry for
    /// each, and the active player and the players with priority are among
    /// them.
    pub open spec fn wf(self) -> bool {
        &&& 0 < self.player_count <= 255
        &&& self.player_state.len() == self.player_count
        &&& self.hand_sizes.len() == self.player_count
        &&& self.known_hand_cards.len() == self.player_count
        &&& (self.active_player.0 as int) < self.player_count
        &&& forall|i: int|
            0 <= i < self.priority_players.len() ==> ((#[trigger] self.priority_players[i]).0
                as int) < self.player_count
    }

    /// A player's value under `key`; `default` where there is none.
    pub open spec fn player_value(self, player: PlayerId, key: Seq<char>, default: i64) -> i64 {
        state_value(self.player_state[player.0 as int], key, default)
    }

    /// The turn's value under `key`; `default` where there is none.
    pub open spec fn turn_value(self, key: Seq<char>, default: i64) -> i64 {
        state_value(self.turn_state, key, default)
    }

    /// The same state with `value` stored for a player under `key`.
    pub open spec fn with_player_value(self, player: PlayerId, key: Seq<char>, value: i64) -> Self {
        PublicStateView {
            player_state: self.player_state.update(
                player.0 as int,
                self.player_state[player.0 as int].insert(key, value),
            ),
            ..self
        }
    }

    /// The same state with `value` stored for the turn under `key`.
    pub open spec fn with_turn_value(self, key: Seq<char>, value: i64) -> Self {
        PublicStateView { turn_state: self.turn_state.insert(key, value), ..self }
    }

    /// The same state with another hand size for a player.
    pub open spec fn with_hand_size(self, player: PlayerId, size: u32) -> Self {
        PublicStateView { hand_sizes: self.hand_sizes.update(player.0 as int, size), ..self }
    }
}

/// The named values of each player, as plain values.
pub open spec fn player_values(maps: Seq<StateMap>) -> Seq<Map<Seq<char>, i64>> {
    Seq::new(maps.len(), |i: int| state_entries(maps[i]))
}

/// The known cards of each player, as plain values.
pub open spec fn known_sets(sets: Seq<im::HashSet<CardId>>) -> Seq<Set<CardId>> {
    Seq::new(sets.len(), |i: int| known_cards(sets[i]))
}

impl View for PublicState {
    type V = PublicStateView;

    open spec fn view(&self) -> PublicStateView {
        PublicStateView {
            player_count: self.player_count,
            phase: self.phase,
            turn_number: self.turn_number,
            action_sequence: self.action_sequence,
            active_player: self.active_player,
            priority_players: self.priority_players@,
            player_state: player_values(self.player_state@),
            turn_state: state_entries(self.turn_state),
            hand_sizes: self.hand_sizes@,
            known_hand_cards: known_sets(self.known_hand_cards@),
            action_history: history_items(self.action_history),
        }
    }
}

impl PublicState {
    /// The state at the start of a game: turn 1, phase 0, player 0 active
    /// and alone with priority, no values, empty hands, no history.
    pub fn new(player_count: usize) -> (state: Self)
        requires
            0 < player_count <= 255,
        ensures
            state@ == (PublicStateView {
                player_count,
                phase: PhaseId(0),
                turn_number: 1,
                action_sequence: 0,
                active_player: PlayerId(0),
                priority_players: seq![PlayerId(0)],
                player_state: Seq::new(player_count as nat, |i: int| Map::empty()),
                turn_state: Map::empty(),
                hand_sizes: Seq::new(player_count as nat, |i: int| 0u32),
                known_hand_cards: Seq::new(player_count as nat, |i: int| Set::empty()),
                action_history: Seq::empty(),
            }),
            state@.wf(),
    {
        let make_values = |player: PlayerId| -> (values: StateMap)
            ensures
                state_entries(values) == Map::<Seq<char>, i64>::empty(),
            { state_map_new() };
        let make_known = |player: PlayerId| -> (known: im::HashSet<CardId>)
            ensures
                known_cards(known) == Set::<CardId>::empty(),
            { known_new() };
        let mut priority_players: Vec<PlayerId> = Vec::new();
        priority_players.push(PlayerId(0));
        let state = PublicState {
            player_count,
            phase: PhaseId(0),
            turn_number: 1,
            action_sequence: 0,
            active_player: PlayerId(0),
            priority_players,
            player_state: PlayerMap::new(player_count, make_values),
            turn_state: state_map_new(),
            hand_sizes: PlayerMap::with_value(player_count, 0u32),
            known_hand_cards: PlayerMap::new(player_count, make_known),
            action_history: history_new(),
        };
        proof {
            assert(state@.priority_players =~= seq![PlayerId(0)]);
            assert(state@.player_state =~= Seq::new(player_count as nat, |i: int| Map::empty()));
            assert(state@.hand_sizes =~= Seq::new(player_count as nat, |i: int| 0u32));
            assert(state@.known_hand_cards =~= Seq::new(
                player_count as nat,
                |i: int| Set::empty(),
            ));
        }
        state
    }

    /// The number of players.
    pub fn player_count(&self) -> (count: usize)
        ensures
            count == self@.player_count,
    {
        self.player_count
    }

    /// The players, in index order.
    pub fn player_ids(&self) -> (players: Vec<PlayerId>)
        ensures
            players@.len() == (self@.player_count as int) % 256,
            forall|i: int| 0 <= i < players@.len() ==> (#[trigger] players@[i]).0 == i,
    {
        PlayerId::all(self.player_count)
    }

    /// A player's value under `key`; `default` where there is none.
    pub fn get_player_state(&self, player: PlayerId, key: &str, default: i64) -> (value: i64)
        requires
            (player.0 as int) < self@.player_state.len(),
        ensures
            value == self@.player_value(player, key@, default),
    {
        match state_map_get(self.player_state.get(player), key) {
            Some(value) => value,
            None => default,
        }
    }

    /// Stores `value` for a player under `key`.
    pub fn set_player_state(&mut self, player: PlayerId, key: &str, value: i64)
        requires
            (player.0 as int) < old(self)@.player_state.len(),
        ensures
            final(self)@ == old(self)@.with_player_value(player, key@, value),
    {
        state_map_insert(self.player_state.get_mut(player), key.to_owned(), value);
        assert(self@.player_state =~= old(self)@.with_player_value(
            player,
            key@,
            value,
        ).player_state);
    }

    /// Adds `delta` to a player's value under `key`, which counts as 0
    /// where there is none. The sum wraps around at the ends of `i64`.
    pub fn modify_player_state(&mut self, player: PlayerId, key: &str, delta: i64)
        requires
            (player.0 as int) < old(self)@.player_state.len(),
        ensures
            final(self)@ == old(self)@.with_player_value(
                player,
                key@,
                old(self)@.player_value(player, key@, 0).wrapping_add(delta),
            ),
    {
        let current = self.get_player_state(player, key, 0);
        self.set_player_state(player, key, current.wrapping_add(delta));
    }

    /// The turn's value under `key`; `default` where there is none.
    pub fn get_turn_state(&self, key: &str, default: i64) -> (value: i64)
        ensures
            value == self@.turn_value(key@, default),
    {
        match state_map_get(&self.turn_state, key) {
            Some(value) => value,
            None => default,
        }
    }

    /// Stores `value` for the turn under `key`.
    pub fn set_turn_state(&mut self, key: &str, value: i64)
        ensures
            final(self)@ == old(self)@.with_turn_value(key@, value),
    {
        state_map_insert(&mut self.turn_state, key.to_owned(), value);
    }

    /// Makes a player the active one.
    pub fn set_active_player(&mut self, player: PlayerId)
        ensures
            final(self)@ == (PublicStateView { active_player: player, ..old(self)@ }),
    {
        self.active_player = player;
    }

    /// Gives priority to one player alone.
    pub fn set_priority(&mut self, player: PlayerId)
        ensures
            final(self)@ == (PublicStateView { priority_players: seq![player], ..old(self)@ }),
    {
        let mut players: Vec<PlayerId> = Vec::new();
        players.push(player);
        self.priority_players = players;
        assert(self@.priority_players =~= seq![player]);
    }

    /// Gives priority to the given players.
    pub fn set_priority_multiple(&mut self, players: Vec<PlayerId>)
        ensures
            final(self)@ == (PublicStateView { priority_players: players@, ..old(self)@ }),
    {
        self.priority_players = players;
    }

    /// Whether a player has priority.
    pub fn has_priority(&self, player: PlayerId) -> (has: bool)
        ensures
            has == self@.priority_players.contains(player),
    {
        let mut next: usize = 0;
        while next < self.priority_players.len()
            invariant
                next <= self.priority_players@.len(),
                forall|i: int| 0 <= i < next ==> self.priority_players@[i] != player,
            decreases self.priority_players@.len() - next,
        {
            if self.priority_players[next] == player {
                return true;
            }
            next = next + 1;
        }
        false
    }

    /// Begins the next turn: the turn's values are forgotten and the
    /// numbering of actions starts over.
    pub fn advance_turn(&mut self)
        requires
            old(self)@.turn_number < u32::MAX,
        ensures
            final(self)@ == (PublicStateView {
                turn_number: (old(self)@.turn_number + 1) as u32,
                turn_state: Map::empty(),
                action_sequence: 0,
                ..old(self)@
            }),
    {
        self.turn_number = self.turn_number + 1;
        state_map_clear(&mut self.turn_state);
        self.action_sequence = 0;
    }

    /// Begins the next turn and keeps the turn's values.
    pub fn advance_turn_preserve_state(&mut self)
        requires
            old(self)@.turn_number < u32::MAX,
        ensures
            final(self)@ == (PublicStateView {
                turn_number: (old(self)@.turn_number + 1) as u32,
                action_sequence: 0,
                ..old(self)@
            }),
    {
        self.turn_number = self.turn_number + 1;
        self.action_sequence = 0;
    }

    /// Adds a record at the end of the history.
    pub fn record_action(&mut self, record: ActionRecord)
        ensures
            final(self)@ == (PublicStateView {
                action_history: old(self)@.action_history.push(record@),
                ..old(self)@
            }),
    {
        history_push_back(&mut self.action_history, record);
    }

    /// The number of the next action of this turn.
    pub fn next_sequence(&mut self) -> (sequence: u32)
        requires
            old(self)@.action_sequence < u32::MAX,
        ensures
            sequence == old(self)@.action_sequence,
            final(self)@ == (PublicStateView {
                action_sequence: (sequence + 1) as u32,
                ..old(self)@
            }),
    {
        let sequence = self.action_sequence;
        self.action_sequence = self.action_sequence + 1;
        sequence
    }
}

impl Clone for PublicState {
    fn clone(&self) -> (copy: Self)
        ensures
            copy@ == self@,
    {
        let copy_values = |values: &StateMap| -> (copy: StateMap)
            ensures
                state_entries(copy) == state_entries(*values),
            { state_map_clone(values) };
        let copy_known = |known: &im::HashSet<CardId>| -> (copy: im::HashSet<CardId>)
            ensures
                known_cards(copy) == known_cards(*known),
            { known_clone(known) };
        let copy_size = |size: &u32| -> (copy: u32)
            ensures
                copy == *size,
            { *size };
        let copy = PublicState {
            player_count: self.player_count,
            phase: self.phase,
            turn_number: self.turn_number,
            action_sequence: self.action_sequence,
            active_player: self.active_player,
            priority_players: copy_vec(&self.priority_players),
            player_state: self.player_state.clone_with(copy_values),
            turn_state: state_map_clone(&self.turn_state),
            hand_sizes: self.hand_sizes.clone_with(copy_size),
            known_hand_cards: self.known_hand_cards.clone_with(copy_known),
            action_history: history_clone(&self.action_history),
        };
        proof {
            assert(copy@.player_state =~= self@.player_state);
            assert(copy@.hand_sizes =~= self@.hand_sizes);
            assert(copy@.known_hand_cards =~= self@.known_hand_cards);
        }
        copy
    }
}

/// The whole state of a game.
#[derive(Debug)]
pub struct GameState {
    /// What every player may know.
    pub public: PublicState,
    /// Where every card is.
    pub zones: ZoneManager,
    /// Each player's hand, oldest card first.
    pub hands: PlayerMap<Vec<CardId>>,
    /// Each player's deck; the last card is the top.
    pub decks: PlayerMap<Vec<CardId>>,
    /// The card instances, by the raw identifier of their entity.
    pub cards: IdMap<CardInstance>,
    /// The random number generator of the game.
    pub rng: GameRng,
    /// The next entity identifier to hand out.
    pub next_entity_id: u32,
}

/// The state of a game as plain values.
pub struct GameStateView {
    pub public: PublicStateView,
    pub zones: ZoneView,
    pub hands: Seq<Seq<CardId>>,
    pub decks: Seq<Seq<CardId>>,
    pub cards: Map<u32, CardInstanceView>,
    pub rng: GameRngState,
    pub next_entity_id: u32,
}

impl GameStateView {
    /// The public state and the zones are well formed, and every player
    /// has a hand and a deck.
    pub open spec fn wf(self) -> bool {
        &&& self.public.wf()
        &&& self.zones.wf()
        &&& self.hands.len() == self.public.player_count
        &&& self.decks.len() == self.public.player_count
        &&& self.cards.dom().finite()
    }

    /// Every player's hand size is the length of the player's hand.
    pub open spec fn hands_consistent(self) -> bool {
        &&& self.public.hand_sizes.len() == self.hands.len()
        &&& forall|player: int|
            0 <= player < self.hands.len() ==> self.public.hand_sizes[player] == (
            #[trigger] self.hands[player]).len()
    }

    /// Every card instance is stored under its own entity and names the
    /// zone that the zone manager has it in.
    pub open spec fn cards_placed(self) -> bool {
        forall|entity: u32| #[trigger]
            self.cards.contains_key(entity) ==> self.cards[entity].entity_id.0 == entity
                && self.zones.zone_of(EntityId(entity)) == Some(self.cards[entity].zone)
    }

    /// The card instance of an entity, if it has one.
    pub open spec fn card(self, entity: EntityId) -> Option<CardInstanceView> {
        if self.cards.contains_key(entity.0) {
            Some(self.cards[entity.0])
        } else {
            None
        }
    }
}

/// Hands or decks as plain values.
pub open spec fn card_lists(lists: Seq<Vec<CardId>>) -> Seq<Seq<CardId>> {
    Seq::new(lists.len(), |i: int| lists[i]@)
}

/// Card instances as plain values.
pub open spec fn card_views(cards: Map<u32, CardInstance>) -> Map<u32, CardInstanceView> {
    Map::new(|entity: u32| cards.contains_key(entity), |entity: u32| cards[entity]@)
}

impl View for GameState {
    type V = GameStateView;

    open spec fn view(&self) -> GameStateView {
        GameStateView {
            public: self.public@,
            zones: self.zones@,
            hands: card_lists(self.hands@),
            decks: card_lists(self.decks@),
            cards: card_views(self.cards@),
            rng: self.rng@,
            next_entity_id: self.next_entity_id,
        }
    }
}

/// The position of the first occurrence of a card in a list.
fn position_of(cards: &Vec<CardId>, card: CardId) -> (position: Option<usize>)
    ensures
        match position {
            Some(at) => at < cards@.len() && cards@[at as int] == card && forall|i: int|
                0 <= i < at ==> cards@[i] != card,
            None => !cards@.contains(card),
        },
{
    let mut next: usize = 0;
    while next < cards.len()
        invariant
            next <= cards@.len(),
            forall|i: int| 0 <= i < next ==> cards@[i] != card,
        decreases cards@.len() - next,
    {
        if cards[next] == card {
            return Some(next);
        }
        next = next + 1;
    }
    None
}

impl GameState {
    /// The state at the start of a game: no cards anywhere, and the first
    /// free entity right after the players'.
    pub fn new(player_count: usize, seed: u64) -> (state: Self)
        requires
            0 < player_count <= 255,
        ensures
            state@.public == PublicState::new_view(player_count),
            state@.zones == (ZoneView { locations: Map::empty(), orders: Map::empty() }),
            state@.hands == Seq::new(player_count as nat, |i: int| Seq::<CardId>::empty()),
            state@.decks == Seq::new(player_count as nat, |i: int| Seq::<CardId>::empty()),
            state@.cards == Map::<u32, CardInstanceView>::empty(),
            state@.rng == (GameRngState { seed, word_pos: 0, fork_counter: 0 }),
            state@.next_entity_id == player_count,
            state@.wf(),
            state@.hands_consistent(),
            state@.cards_placed(),
    {
        let no_cards = |player: PlayerId| -> (cards: Vec<CardId>)
            ensures
                cards@ == Seq::<CardId>::empty(),
            { Vec::new() };
        let state = GameState {
            public: PublicState::new(player_count),
            zones: ZoneManager::new(),
            hands: PlayerMap::new(player_count, no_cards),
            decks: PlayerMap::new(player_count, no_cards),
            cards: id_map_new(),
            rng: GameRng::new(seed),
            next_entity_id: EntityId::first_non_player(player_count),
        };
        proof {
            assert(state@.hands =~= Seq::new(player_count as nat, |i: int| Seq::<CardId>::empty()));
            assert(state@.decks =~= Seq::new(player_count as nat, |i: int| Seq::<CardId>::empty()));
            assert(state@.cards =~= Map::<u32, CardInstanceView>::empty());
        }
        state
    }

    /// The number of players.
    pub fn player_count(&self) -> (count: usize)
        ensures
            count == self@.public.player_count,
    {
        self.public.player_count()
    }

    /// Hands out the next free entity identifier. No identifier is handed
    /// out twice.
    pub fn alloc_entity(&mut self) -> (entity: EntityId)
        requires
            old(self)@.next_entity_id < u32::MAX,
        ensures
            entity.0 == old(self)@.next_entity_id,
            final(self)@ == (GameStateView {
                next_entity_id: (old(self)@.next_entity_id + 1) as u32,
                ..old(self)@
            }),
    {
        let entity = EntityId(self.next_entity_id);
        self.next_entity_id = self.next_entity_id + 1;
        entity
    }

    /// Adds a card instance, whose entity must be in no zone, and puts it
    /// into the zone it names: on top, where that zone is ordered.
    pub fn add_card(&mut self, card: CardInstance)
        requires
            old(self)@.zones.zone_of(card.entity_id) is None,
        ensures
            final(self)@ == (GameStateView {
                cards: old(self)@.cards.insert(card.entity_id.0, card@),
                zones: old(self)@.zones.with_added(card.entity_id, card.zone, None),
                ..old(self)@
            }),
            old(self)@.zones.wf() ==> final(self)@.zones.wf(),
            old(self)@.zones.wf() && old(self)@.cards_placed() ==> final(self)@.cards_placed(),
    {
        let entity = card.entity_id;
        let zone = card.zone;
        let ghost stored = card@;
        let _ = id_map_insert(&mut self.cards, entity.0, card);
        self.zones.add_to_zone(entity, zone, None);
        proof {
            assert(self@.cards =~= old(self)@.cards.insert(entity.0, stored));
        }
    }

    /// The card instance of an entity, if it has one.
    pub fn get_card(&self, entity: EntityId) -> (card: Option<&CardInstance>)
        ensures
            match card {
                Some(found) => self@.card(entity) == Some(found@),
                None => self@.card(entity) is None,
            },
    {
        id_map_get(&self.cards, entity.0)
    }

    /// The card instance of an entity, if it has one, to change in place.
    /// Nothing else changes.
    pub fn get_card_mut(&mut self, entity: EntityId) -> (card: Option<&mut CardInstance>)
        ensures
            match card {
                Some(found) => old(self)@.card(entity) == Some(found@) && final(self)@ == (
                GameStateView {
                    cards: old(self)@.cards.insert(entity.0, final(found)@),
                    ..old(self)@
                }),
                None => old(self)@.card(entity) is None && final(self)@ == old(self)@,
            },
    {
        let found = id_map_get_mut(&mut self.cards, entity.0);
        proof {
            assert forall|changed: CardInstance| #[trigger]
                card_views(old(self).cards@.insert(entity.0, changed)) == old(self)@.cards.insert(entity.0, changed@) by {
                assert(card_views(old(self).cards@.insert(entity.0, changed)) =~= old(self)@.cards.insert(entity.0, changed@));
            }
        }
        found
    }

    /// A player's hand, oldest card first.
    pub fn hand(&self, player: PlayerId) -> (cards: &[CardId])
        requires
            (player.0 as int) < self@.hands.len(),
        ensures
            cards@ == self@.hands[player.0 as int],
    {
        self.hands.get(player).as_slice()
    }

    /// Adds a card to a player's hand and counts it.
    pub fn add_to_hand(&mut self, player: PlayerId, card_id: CardId)
        requires
            (player.0 as int) < old(self)@.hands.len(),
            (player.0 as int) < old(self)@.public.hand_sizes.len(),
            old(self)@.public.hand_sizes[player.0 as int] < u32::MAX,
        ensures
            final(self)@ == (GameStateView {
                hands: old(self)@.hands.update(
                    player.0 as int,
                    old(self)@.hands[player.0 as int].push(card_id),
                ),
                public: old(self)@.public.with_hand_size(
                    player,
                    (old(self)@.public.hand_sizes[player.0 as int] + 1) as u32,
                ),
                ..old(self)@
            }),
            old(self)@.hands_consistent() ==> final(self)@.hands_consistent(),
    {
        self.hands.get_mut(player).push(card_id);
        let size = self.public.hand_sizes.get_mut(player);
        *size = *size + 1;
        proof {
            assert(self@.hands =~= old(self)@.hands.update(
                player.0 as int,
                old(self)@.hands[player.0 as int].push(card_id),
            ));
        }
    }

    /// Takes the first occurrence of a card out of a player's hand and
    /// says whether there was one.
    pub fn remove_from_hand(&mut self, player: PlayerId, card_id: CardId) -> (removed: bool)
        requires
            (player.0 as int) < old(self)@.hands.len(),
            (player.0 as int) < old(self)@.public.hand_sizes.len(),
            old(self)@.hands[player.0 as int].contains(card_id) ==> old(self)@.public.hand_sizes[player.0 as int] > 0,
        ensures
            removed == old(self)@.hands[player.0 as int].contains(card_id),
            !removed ==> final(self)@ == old(self)@,
            removed ==> final(self)@ == (GameStateView {
                hands: old(self)@.hands.update(
                    player.0 as int,
                    old(self)@.hands[player.0 as int].remove(
                        old(self)@.hands[player.0 as int].index_of_first(card_id).unwrap(),
                    ),
                ),
                public: old(self)@.public.with_hand_size(
                    player,
                    (old(self)@.public.hand_sizes[player.0 as int] - 1) as u32,
                ),
                ..old(self)@
            }),
            old(self)@.hands_consistent() ==> final(self)@.hands_consistent(),
    {
        let ghost before = self@.hands[player.0 as int];
        match position_of(self.hands.get(player), card_id) {
            Some(at) => {
                proof {
                    lemma_first_index(before, card_id, at as int);
                }
                let _ = self.hands.get_mut(player).remove(at);
                let size = self.public.hand_sizes.get_mut(player);
                *size = *size - 1;
                proof {
                    assert(self@.hands =~= old(self)@.hands.update(
                        player.0 as int,
                        before.remove(at as int),
                    ));
                }
                true
            },
            None => false,
        }
    }

    /// Replaces a player's deck; its last card is the top.
    pub fn set_deck(&mut self, player: PlayerId, deck: Vec<CardId>)
        requires
            (player.0 as int) < old(self)@.decks.len(),
        ensures
            final(self)@ == (GameStateView {
                decks: old(self)@.decks.update(player.0 as int, deck@),
                ..old(self)@
            }),
    {
        self.decks.set(player, deck);
        proof {
            assert(self@.decks =~= old(self)@.decks.update(player.0 as int, deck@));
        }
    }

    /// A player's deck; its last card is the top.
    pub fn deck(&self, player: PlayerId) -> (cards: &[CardId])
        requires
            (player.0 as int) < self@.decks.len(),
        ensures
            cards@ == self@.decks[player.0 as int],
    {
        self.decks.get(player).as_slice()
    }

    /// The number of cards in a player's deck.
    pub fn deck_size(&self, player: PlayerId) -> (size: usize)
        requires
            (player.0 as int) < self@.decks.len(),
        ensures
            size == self@.decks[player.0 as int].len(),
    {
        self.decks.get(player).len()
    }

    /// Moves the top card of a player's deck to the player's hand and gives
    /// it; nothing happens where the deck is empty.
    pub fn draw_card(&mut self, player: PlayerId) -> (drawn: Option<CardId>)
        requires
            (player.0 as int) < old(self)@.decks.len(),
            (player.0 as int) < old(self)@.hands.len(),
            (player.0 as int) < old(self)@.public.hand_sizes.len(),
            old(self)@.public.hand_sizes[player.0 as int] < u32::MAX,
        ensures
            old(self)@.decks[player.0 as int].len() == 0 ==> drawn is None && final(self)@ == old(self)@,
            old(self)@.decks[player.0 as int].len() > 0 ==> drawn == Some(
                old(self)@.decks[player.0 as int].last(),
            ) && final(self)@ == (GameStateView {
                decks: old(self)@.decks.update(
                    player.0 as int,
                    old(self)@.decks[player.0 as int].drop_last(),
                ),
                hands: old(self)@.hands.update(
                    player.0 as int,
                    old(self)@.hands[player.0 as int].push(
                        old(self)@.decks[player.0 as int].last(),
                    ),
                ),
                public: old(self)@.public.with_hand_size(
                    player,
                    (old(self)@.public.hand_sizes[player.0 as int] + 1) as u32,
                ),
                ..old(self)@
            }),
            old(self)@.hands_consistent() ==> final(self)@.hands_consistent(),
    {
        match self.decks.get_mut(player).pop() {
            Some(card_id) => {
                proof {
                    assert(self@.decks =~= old(self)@.decks.update(
                        player.0 as int,
                        old(self)@.decks[player.0 as int].drop_last(),
                    ));
                    assert(self@.hands =~= old(self)@.hands);
                }
                self.add_to_hand(player, card_id);
                Some(card_id)
            },
            None => {
                proof {
                    assert(self@.decks =~= old(self)@.decks);
                }
                None
            },
        }
    }

    /// Puts a player's deck in a drawn order: the order that the
    /// generator's shuffle gives to as many items.
    pub fn shuffle_deck(&mut self, player: PlayerId)
        requires
            (player.0 as int) < old(self)@.decks.len(),
        ensures
            final(self)@.decks.len() == old(self)@.decks.len(),
            final(self)@.decks[player.0 as int].to_multiset() == old(self)@.decks[player.0 as int].to_multiset(),
            forall|other: int|
                0 <= other < old(self)@.decks.len() && other != player.0 ==> #[trigger] final(self)@.decks[other] == old(self)@.decks[other],
            final(self)@.rng.seed == old(self)@.rng.seed,
            final(self)@.rng.fork_counter == old(self)@.rng.fork_counter,
            arranged(
                old(self)@.decks[player.0 as int],
                final(self)@.decks[player.0 as int],
                shuffled(
                    old(self)@.rng.seed,
                    old(self)@.rng.word_pos,
                    old(self)@.decks[player.0 as int].len(),
                ).0,
            ) && final(self)@.rng.word_pos == shuffled(
                old(self)@.rng.seed,
                old(self)@.rng.word_pos,
                old(self)@.decks[player.0 as int].len(),
            ).1,
            final(self)@.public == old(self)@.public,
            final(self)@.zones == old(self)@.zones,
            final(self)@.hands == old(self)@.hands,
            final(self)@.cards == old(self)@.cards,
            final(self)@.next_entity_id == old(self)@.next_entity_id,
    {
        self.rng.shuffle(self.decks.get_mut(player));
    }

    /// A snapshot of the game with a random number generator of its own:
    /// the next fork of this game's generator. Everything else is the
    /// same in both, and a change to one is no change to the other.
    pub fn clone_state(&mut self) -> (snapshot: Self)
        ensures
            final(self)@ == (GameStateView {
                rng: GameRngState {
                    fork_counter: old(self)@.rng.fork_counter.wrapping_add(1),
                    ..old(self)@.rng
                },
                ..old(self)@
            }),
            snapshot@ == (GameStateView {
                rng: GameRngState {
                    seed: fork_seed(
                        old(self)@.rng.seed,
                        old(self)@.rng.fork_counter.wrapping_add(1),
                    ),
                    word_pos: 0,
                    fork_counter: 0,
                },
                ..old(self)@
            }),
    {
        let copy_cards = |cards: &Vec<CardId>| -> (copy: Vec<CardId>)
            ensures
                copy@ == cards@,
            { copy_vec(cards) };
        let snapshot = GameState {
            public: self.public.clone(),
            zones: self.zones.clone(),
            hands: self.hands.clone_with(copy_cards),
            decks: self.decks.clone_with(copy_cards),
            cards: id_map_clone(&self.cards),
            rng: self.rng.fork(),
            next_entity_id: self.next_entity_id,
        };
        proof {
            assert(snapshot@.hands =~= old(self)@.hands);
            assert(snapshot@.decks =~= old(self)@.decks);
            assert forall|entity: u32| old(self).cards@.contains_key(entity) implies #[trigger]
                snapshot.cards@[entity]@ == old(self).cards@[entity]@ by {
                assert(cloned(old(self).cards@[entity], snapshot.cards@[entity]));
            }
            assert(snapshot@.cards =~= old(self)@.cards);
        }
        snapshot
    }
}

impl PublicState {
    /// The public state at the start of a game, as plain values.
    pub open spec fn new_view(player_count: usize) -> PublicStateView {
        PublicStateView {
            player_count,
            phase: PhaseId(0),
            turn_number: 1,
            action_sequence: 0,
            active_player: PlayerId(0),
            priority_players: seq![PlayerId(0)],
            player_state: Seq::new(player_count as nat, |i: int| Map::empty()),
            turn_state: Map::empty(),
            hand_sizes: Seq::new(player_count as nat, |i: int| 0u32),
            known_hand_cards: Seq::new(player_count as nat, |i: int| Set::empty()),
            action_history: Seq::empty(),
        }
    }
}

/// `at` is the position of the first occurrence of `card` in `cards`.
pub open spec fn first_at(cards: Seq<CardId>, card: CardId, at: int) -> bool {
    &&& 0 <= at < cards.len()
    &&& cards[at] == card
    &&& forall|i: int| 0 <= i < at ==> cards[i] != card
}

/// The first occurrence of a card is where `index_of_first` says.
pub proof fn lemma_first_index(cards: Seq<CardId>, card: CardId, at: int)
    requires
        first_at(cards, card, at),
    ensures
        cards.contains(card),
        cards.index_of_first(card) == Some(at),
{
    assert(cards[at] == card);
    cards.index_of_first_ensures(card);
}

} // verus!
