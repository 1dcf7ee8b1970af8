//! A small game for trying the engine out.
//!
//! Two to eight players each have a deck, a hand and a discard pile. The
//! player to move draws a card, plays a card from hand at an opponent,
//! who loses as much life as the card has power, or passes. A player
//! without life is out; the last one left wins.

use crate::base::action::{Action, ActionRecord, ActionRecordView, ActionView};
use crate::base::config::{
    GameConfig, PhaseId, TemplateConfig, TemplateId, ZoneConfig, ZoneId,
};
use crate::base::entity::EntityId;
use crate::base::player::PlayerId;
use crate::base::state::{GameState, GameStateView, PublicStateView};
use crate::base::text::labelled;
use crate::cards::attributes::AttributeValue;
use crate::cards::definition::{CardDefinition, CardId, CardTypeId};
use crate::cards::instance::CardInstance;
use crate::cards::registry::CardRegistry;
use crate::effects::resolver::{
    draw_step, lemma_draw_step_keeps, lemma_moved_card_keeps, moved_card, EffectResolver,
};
use crate::rules::engine::{GameResult, GameResultView, RulesEngine};
use crate::zones::manager::ZonePosition;
use vstd::prelude::*;

verus! {

/// The action templates of the game.
#[derive(Clone, Copy, Debug)]
pub struct Templates {
    /// Draw a card.
    pub draw: TemplateId,
    /// Play a card from hand at an opponent.
    pub play: TemplateId,
    /// Do nothing.
    pub pass: TemplateId,
}

/// The zones of one player.
#[derive(Clone, Copy, Debug)]
pub struct PlayerZones {
    pub deck: ZoneId,
    pub hand: ZoneId,
    pub discard: ZoneId,
}

/// The game.
#[derive(Clone)]
pub struct SimpleGame {
    config: GameConfig,
    registry: CardRegistry,
    templates: Templates,
    player_zones: Vec<PlayerZones>,
}

/// Builds a game and its first state.
pub struct SimpleGameBuilder {
    player_count: usize,
    starting_life: i64,
    cards_per_player: usize,
    starting_hand_size: usize,
}

/// The players of a game with `player_count` players, in index order.
pub open spec fn all_players(player_count: usize) -> Seq<PlayerId> {
    Seq::new(((player_count as int) % 256) as nat, |i: int| PlayerId(i as u8))
}

/// Whether a player has life left.
pub open spec fn alive_in(public: PublicStateView, player: PlayerId) -> bool {
    (player.0 as int) < public.player_state.len() && public.player_value(player, "life"@, 0) > 0
}

/// The players with life left.
pub open spec fn living(public: PublicStateView) -> spec_fn(PlayerId) -> bool {
    |player: PlayerId| alive_in(public, player)
}

/// Every player but one.
pub open spec fn other_player(player: PlayerId) -> spec_fn(PlayerId) -> bool {
    |other: PlayerId| other != player
}

/// The players with life left, in index order.
pub open spec fn alive_players_of(public: PublicStateView) -> Seq<PlayerId> {
    all_players(public.player_count).filter(living(public))
}

/// The players with life left other than one, in index order.
pub open spec fn opponents_of(public: PublicStateView, player: PlayerId) -> Seq<PlayerId> {
    alive_players_of(public).filter(other_player(player))
}

/// Whether every entity that is in a zone has a card instance.
pub open spec fn all_cards(state: GameStateView) -> bool {
    forall|entity: u32| #[trigger]
        state.zones.locations.contains_key(entity) ==> state.cards.contains_key(entity)
}

/// Whether a player of a built game has `in_deck` cards in the deck,
/// which keeps its order, and `in_hand` cards in hand, counted by the hand
/// size.
pub open spec fn dealt(state: GameStateView, player: int, in_deck: int, in_hand: int) -> bool {
    &&& state.zones.is_ordered(ZoneId((3 * player) as u16))
    &&& state.zones.order(ZoneId((3 * player) as u16)).len() == in_deck
    &&& state.public.hand_sizes[player] == in_hand
    &&& state.hands[player].len() == in_hand
}

/// Whether the hand zone of a player of a built game, which keeps no
/// order, holds `count` cards.
pub open spec fn hand_holds(state: GameStateView, player: int, count: int) -> bool {
    &&& !state.zones.is_ordered(ZoneId((3 * player + 1) as u16))
    &&& state.zones.members(ZoneId((3 * player + 1) as u16)).finite()
    &&& state.zones.size(ZoneId((3 * player + 1) as u16)) == count
}

/// Whether every card of a built game is in a deck, and no hand zone
/// keeps an order.
pub open spec fn all_in_decks(state: GameStateView) -> bool {
    &&& forall|entity: u32| #[trigger]
        state.zones.locations.contains_key(entity) ==> state.zones.locations[entity].0 % 3 == 0
    &&& forall|zone: u32| #[trigger] state.zones.orders.contains_key(zone) ==> zone % 3 != 1
}

/// A hand zone that no card is in holds none.
pub proof fn lemma_empty_hand(state: GameStateView, player: int)
    requires
        0 <= player < 8,
        all_in_decks(state),
    ensures
        hand_holds(state, player, 0),
{
    let hand = ZoneId((3 * player + 1) as u16);
    assert(state.zones.members(hand) =~= Set::<EntityId>::empty());
}

/// A hand zone holds as many cards as before where the same entities are
/// in it.
pub proof fn lemma_same_hand(before: GameStateView, after: GameStateView, player: int, count: int)
    requires
        hand_holds(before, player, count),
        after.zones.is_ordered(ZoneId((3 * player + 1) as u16)) == before.zones.is_ordered(
            ZoneId((3 * player + 1) as u16),
        ),
        forall|entity: EntityId|
            (#[trigger] after.zones.zone_of(entity) == Some(ZoneId((3 * player + 1) as u16))) == (
            before.zones.zone_of(entity) == Some(ZoneId((3 * player + 1) as u16))),
    ensures
        hand_holds(after, player, count),
{
    let hand = ZoneId((3 * player + 1) as u16);
    assert(after.zones.members(hand) =~= before.zones.members(hand));
}

/// A hand zone holds one card more where one entity more is in it.
pub proof fn lemma_hand_gains(
    before: GameStateView,
    after: GameStateView,
    player: int,
    count: int,
    card: EntityId,
)
    requires
        hand_holds(before, player, count),
        !after.zones.is_ordered(ZoneId((3 * player + 1) as u16)),
        before.zones.zone_of(card) != Some(ZoneId((3 * player + 1) as u16)),
        after.zones.zone_of(card) == Some(ZoneId((3 * player + 1) as u16)),
        forall|entity: EntityId|
            entity != card ==> (#[trigger] after.zones.zone_of(entity) == Some(
                ZoneId((3 * player + 1) as u16),
            )) == (before.zones.zone_of(entity) == Some(ZoneId((3 * player + 1) as u16))),
    ensures
        hand_holds(after, player, count + 1),
{
    let hand = ZoneId((3 * player + 1) as u16);
    assert(after.zones.members(hand) =~= before.zones.members(hand).insert(card));
}

/// The smaller of two numbers.
pub open spec fn least(first: int, second: int) -> int {
    if first < second {
        first
    } else {
        second
    }
}

/// The place of a player among the players with life left: the first
/// place that holds the player, and the first place of all where none
/// does.
pub open spec fn first_seat(alive: Seq<PlayerId>, player: PlayerId) -> int {
    if alive.contains(player) {
        choose|seat: int|
            0 <= seat < alive.len() && alive[seat] == player && forall|k: int|
                0 <= k < seat ==> #[trigger] alive[k] != player
    } else {
        0
    }
}

/// The public state after the turn went on from a player: the next
/// player with life left, in index order and round to the first, is
/// active and has priority. Nothing changes where at most one player has
/// life left.
pub open spec fn turn_passed(public: PublicStateView, player: PlayerId) -> PublicStateView {
    let alive = alive_players_of(public);
    if alive.len() > 1 {
        let next = alive[(first_seat(alive, player) + 1) % (alive.len() as int)];
        PublicStateView { active_player: next, priority_players: seq![next], ..public }
    } else {
        public
    }
}

/// The public state after an action of a player went into the history,
/// under the next sequence number of the turn. Nothing changes where the
/// sequence numbers of the turn are used up.
pub open spec fn noted(public: PublicStateView, player: PlayerId, action: ActionView) -> PublicStateView {
    if public.action_sequence < u32::MAX {
        PublicStateView {
            action_sequence: (public.action_sequence + 1) as u32,
            action_history: public.action_history.push(
                ActionRecordView {
                    player,
                    action,
                    turn: public.turn_number,
                    sequence: public.action_sequence,
                },
            ),
            ..public
        }
    } else {
        public
    }
}

impl SimpleGameBuilder {
    #[verifier::type_invariant]
    spec fn builds_for_two_to_eight(self) -> bool {
        2 <= self.player_count <= 8
    }

    /// The number of players.
    pub closed spec fn players(self) -> usize {
        self.player_count
    }

    /// The life every player starts with.
    pub closed spec fn life(self) -> i64 {
        self.starting_life
    }

    /// The number of cards of every player.
    pub closed spec fn cards(self) -> usize {
        self.cards_per_player
    }

    /// The number of cards every player draws at the start.
    pub closed spec fn hand(self) -> usize {
        self.starting_hand_size
    }

    /// A builder of a game of two players with 20 life and 10 cards each,
    /// of which they draw 3.
    pub fn new() -> (builder: Self)
        ensures
            builder.players() == 2,
            builder.life() == 20,
            builder.cards() == 10,
            builder.hand() == 3,
    {
        SimpleGameBuilder {
            player_count: 2,
            starting_life: 20,
            cards_per_player: 10,
            starting_hand_size: 3,
        }
    }

    /// The same builder for another number of players, two to eight.
    pub fn player_count(self, count: usize) -> (builder: Self)
        requires
            2 <= count <= 8,
        ensures
            builder.players() == count,
            builder.life() == self.life(),
            builder.cards() == self.cards(),
            builder.hand() == self.hand(),
    {
        SimpleGameBuilder {
            player_count: count,
            starting_life: self.starting_life,
            cards_per_player: self.cards_per_player,
            starting_hand_size: self.starting_hand_size,
        }
    }

    /// The same builder with another starting life.
    pub fn starting_life(self, life: i64) -> (builder: Self)
        ensures
            builder.players() == self.players(),
            builder.life() == life,
            builder.cards() == self.cards(),
            builder.hand() == self.hand(),
    {
        proof {
            use_type_invariant(&self);
        }
        SimpleGameBuilder {
            player_count: self.player_count,
            starting_life: life,
            cards_per_player: self.cards_per_player,
            starting_hand_size: self.starting_hand_size,
        }
    }

    /// The same builder with another number of cards for every player.
    pub fn cards_per_player(self, count: usize) -> (builder: Self)
        ensures
            builder.players() == self.players(),
            builder.life() == self.life(),
            builder.cards() == count,
            builder.hand() == self.hand(),
    {
        proof {
            use_type_invariant(&self);
        }
        SimpleGameBuilder {
            player_count: self.player_count,
            starting_life: self.starting_life,
            cards_per_player: count,
            starting_hand_size: self.starting_hand_size,
        }
    }

    /// The same builder with another number of cards drawn at the start.
    pub fn starting_hand_size(self, size: usize) -> (builder: Self)
        ensures
            builder.players() == self.players(),
            builder.life() == self.life(),
            builder.cards() == self.cards(),
            builder.hand() == size,
    {
        proof {
            use_type_invariant(&self);
        }
        SimpleGameBuilder {
            player_count: self.player_count,
            starting_life: self.starting_life,
            cards_per_player: self.cards_per_player,
            starting_hand_size: size,
        }
    }

    /// The game and its first state: every player has the starting life,
    /// a shuffled deck of cards of power 1 to 5 in turn, and a hand drawn
    /// from it. The cards of all players together have to fit the entity
    /// identifiers.
    pub fn build(self, seed: u64) -> (built: (SimpleGame, GameState))
        requires
            self.players() * (self.cards() + 1) < u32::MAX,
        ensures
            built.0.wf(),
            built.0.player_total() == self.players(),
            built.0.draw_template() == TemplateId(0),
            built.0.play_template() == TemplateId(1),
            built.0.pass_template() == TemplateId(2),
            forall|player: PlayerId|
                (player.0 as int) < self.players() ==> #[trigger] built.0.knows(player)
                    && built.0.zones_of(player).deck.0 == 3 * player.0
                    && built.0.zones_of(player).hand.0 == 3 * player.0 + 1
                    && built.0.zones_of(player).discard.0 == 3 * player.0 + 2,
            forall|id: u32| 1 <= id <= 5 ==> #[trigger] built.0.power_of(CardId(id)) == id,
            built.1@.wf(),
            built.1@.cards_placed(),
            built.1@.hands_consistent(),
            built.1@.zones.locations.len() == self.players() * self.cards(),
            forall|player: int|
                0 <= player < self.players() ==> #[trigger] hand_holds(
                    built.1@,
                    player,
                    least(self.hand() as int, self.cards() as int),
                ),
            forall|player: int|
                0 <= player < self.players() ==> #[trigger] dealt(
                    built.1@,
                    player,
                    self.cards() - least(self.hand() as int, self.cards() as int),
                    least(self.hand() as int, self.cards() as int),
                ),
            built.1@.public.player_count == self.players(),
            built.1@.next_entity_id == self.players() * (self.cards() + 1),
            forall|player: int|
                0 <= player < self.players() ==> (
                #[trigger] built.1@.public.player_state[player]).contains_key("life"@)
                    && built.1@.public.player_state[player]["life"@] == self.life(),
    {
        proof {
            use_type_invariant(&self);
        }
        let templates = Templates {
            draw: TemplateId::new(0),
            play: TemplateId::new(1),
            pass: TemplateId::new(2),
        };
        let mut zone_configs: Vec<ZoneConfig> = Vec::new();
        let mut player_zones: Vec<PlayerZones> = Vec::new();
        let mut player_idx: usize = 0;
        while player_idx < self.player_count
            invariant
                player_idx <= self.player_count <= 8,
                player_zones@.len() == player_idx,
                forall|i: int|
                    0 <= i < player_idx ==> (#[trigger] player_zones@[i]).deck.0 == 3 * i
                        && player_zones@[i].hand.0 == 3 * i + 1 && player_zones@[i].discard.0 == 3
                        * i + 2,
            decreases self.player_count - player_idx,
        {
            let player = PlayerId::new(player_idx as u8);
            let first = (3 * player_idx) as u16;
            let deck_id = ZoneId::new(first);
            let hand_id = ZoneId::new(first + 1);
            let discard_id = ZoneId::new(first + 2);
            let deck_name = labelled("Player ", player_idx as u64, " Deck");
            let hand_name = labelled("Player ", player_idx as u64, " Hand");
            let discard_name = labelled("Player ", player_idx as u64, " Discard");
            zone_configs.push(
                ZoneConfig::new(deck_id, deck_name.as_str()).with_owner(player).hidden().ordered(),
            );
            zone_configs.push(
                ZoneConfig::new(hand_id, hand_name.as_str()).with_owner(player).owner_only(),
            );
            zone_configs.push(
                ZoneConfig::new(discard_id, discard_name.as_str()).with_owner(player).ordered(),
            );
            player_zones.push(PlayerZones { deck: deck_id, hand: hand_id, discard: discard_id });
            player_idx = player_idx + 1;
        }
        let mut template_configs: Vec<TemplateConfig> = Vec::new();
        template_configs.push(TemplateConfig::new(templates.draw, "Draw", 0));
        template_configs.push(TemplateConfig::new(templates.play, "Play", 2));
        template_configs.push(TemplateConfig::new(templates.pass, "Pass", 0));
        let config = GameConfig {
            player_count: self.player_count,
            zones: zone_configs,
            templates: template_configs,
            initial_phase: PhaseId::new(0),
        };
        let mut registry = CardRegistry::new();
        let card_type = CardTypeId::new(0);
        let mut power: u32 = 1;
        while power <= 5
            invariant
                1 <= power <= 6,
                registry.wf(),
                forall|id: u32| #[trigger] registry@.contains_key(id) ==> 1 <= id < power,
                forall|id: u32|
                    1 <= id < power ==> #[trigger] registry@.contains_key(id) && registry@[id].attr(
                        "power"@,
                    ) == Some(AttributeValue::Int(id as i64)),
            decreases 6 - power,
        {
            let card_id = CardId::new(power);
            let name = labelled("Power ", power as u64, " Card");
            let def = CardDefinition::new(card_id, name.as_str(), card_type).with_attr(
                "power",
                power as i64,
            );
            registry.register(def);
            power = power + 1;
        }
        let mut state = GameState::new(self.player_count, seed);
        let mut zone_idx: usize = 0;
        while zone_idx < player_zones.len()
            invariant
                zone_idx <= player_zones@.len(),
                state@.wf(),
                state@.cards_placed(),
                state@.public == crate::base::state::PublicState::new_view(self.player_count),
                state@.next_entity_id == self.player_count,
                state@.zones.locations == Map::<u32, ZoneId>::empty(),
                state@.cards == Map::<u32, crate::cards::instance::CardInstanceView>::empty(),
                player_zones@.len() == self.player_count <= 8,
                forall|i: int|
                    0 <= i < player_zones@.len() ==> (#[trigger] player_zones@[i]).deck.0 == 3 * i
                        && player_zones@[i].hand.0 == 3 * i + 1 && player_zones@[i].discard.0 == 3
                        * i + 2,
                state@.hands_consistent(),
                state@.hands == Seq::new(self.player_count as nat, |i: int| Seq::<CardId>::empty()),
                forall|zone: u32| #[trigger]
                    state@.zones.orders.contains_key(zone) ==> state@.zones.orders[zone].len() == 0,
                forall|player: int| 0 <= player < zone_idx ==> #[trigger] dealt(state@, player, 0, 0),
                all_in_decks(state@),
            decreases player_zones@.len() - zone_idx,
        {
            let ghost before = state@;
            state.zones.init_ordered_zone(player_zones[zone_idx].deck);
            state.zones.init_ordered_zone(player_zones[zone_idx].discard);
            proof {
                assert forall|player: int| 0 <= player < zone_idx + 1 implies #[trigger] dealt(
                    state@,
                    player,
                    0,
                    0,
                ) by {
                    if player < zone_idx {
                        assert(dealt(before, player, 0, 0));
                    }
                }
            }
            zone_idx = zone_idx + 1;
        }
        let mut life_idx: usize = 0;
        while life_idx < self.player_count
            invariant
                life_idx <= self.player_count <= 8,
                state@.wf(),
                state@.cards_placed(),
                state@.public.player_count == self.player_count,
                state@.next_entity_id == self.player_count,
                state@.zones.locations == Map::<u32, ZoneId>::empty(),
                forall|player: int|
                    0 <= player < life_idx ==> (#[trigger] state@.public.player_state[player]).contains_key(
                        "life"@,
                    ) && state@.public.player_state[player]["life"@] == self.starting_life,
                state@.hands_consistent(),
                forall|player: int|
                    0 <= player < self.player_count ==> #[trigger] dealt(state@, player, 0, 0),
                all_in_decks(state@),
            decreases self.player_count - life_idx,
        {
            let ghost before = state@;
            state.public.set_player_state(PlayerId::new(life_idx as u8), "life", self.starting_life);
            proof {
                assert forall|player: int|
                    0 <= player < self.player_count implies #[trigger] dealt(state@, player, 0, 0) by {
                    assert(dealt(before, player, 0, 0));
                }
            }
            life_idx = life_idx + 1;
        }
        let mut owner_idx: usize = 0;
        while owner_idx < self.player_count
            invariant
                owner_idx <= self.player_count <= 8,
                player_zones@.len() == self.player_count,
                self.player_count * (self.cards_per_player + 1) < u32::MAX,
                state@.wf(),
                state@.cards_placed(),
                state@.public.player_count == self.player_count,
                state@.next_entity_id == self.player_count + owner_idx * self.cards_per_player,
                forall|entity: u32| #[trigger]
                    state@.zones.locations.contains_key(entity) ==> entity < state@.next_entity_id,
                forall|player: int|
                    0 <= player < self.player_count ==> (
                    #[trigger] state@.public.player_state[player]).contains_key("life"@)
                        && state@.public.player_state[player]["life"@] == self.starting_life,
                forall|i: int|
                    0 <= i < player_zones@.len() ==> (#[trigger] player_zones@[i]).deck.0 == 3 * i,
                state@.hands_consistent(),
                all_cards(state@),
                all_in_decks(state@),
                state@.zones.locations.len() == state@.next_entity_id - self.player_count,
                forall|other: int|
                    0 <= other < owner_idx ==> #[trigger] dealt(
                        state@,
                        other,
                        self.cards_per_player as int,
                        0,
                    ),
                forall|other: int|
                    owner_idx <= other < self.player_count ==> #[trigger] dealt(state@, other, 0, 0),
            decreases self.player_count - owner_idx,
        {
            let player = PlayerId::new(owner_idx as u8);
            let deck = player_zones[owner_idx].deck;
            let mut card_idx: usize = 0;
            proof {
                assert(owner_idx * self.cards_per_player + self.cards_per_player == (owner_idx
                    + 1) * self.cards_per_player) by (nonlinear_arith);
                assert((owner_idx + 1) * self.cards_per_player <= self.player_count
                    * self.cards_per_player) by (nonlinear_arith)
                    requires
                        owner_idx + 1 <= self.player_count,
                ;
                assert(self.player_count * (self.cards_per_player + 1) == self.player_count
                    * self.cards_per_player + self.player_count) by (nonlinear_arith);
            }
            while card_idx < self.cards_per_player
                invariant
                    card_idx <= self.cards_per_player,
                    owner_idx < self.player_count <= 8,
                    self.player_count + owner_idx * self.cards_per_player + self.cards_per_player
                        < u32::MAX,
                    state@.wf(),
                    state@.cards_placed(),
                    state@.public.player_count == self.player_count,
                    state@.next_entity_id == self.player_count + owner_idx * self.cards_per_player
                        + card_idx,
                    forall|entity: u32| #[trigger]
                        state@.zones.locations.contains_key(entity) ==> entity
                            < state@.next_entity_id,
                    forall|player: int|
                        0 <= player < self.player_count ==> (
                        #[trigger] state@.public.player_state[player]).contains_key("life"@)
                            && state@.public.player_state[player]["life"@] == self.starting_life,
                    deck.0 == 3 * owner_idx,
                    state@.hands_consistent(),
                    all_cards(state@),
                    all_in_decks(state@),
                    state@.zones.locations.len() == state@.next_entity_id - self.player_count,
                    forall|other: int|
                        0 <= other < owner_idx ==> #[trigger] dealt(
                            state@,
                            other,
                            self.cards_per_player as int,
                            0,
                        ),
                    dealt(state@, owner_idx as int, card_idx as int, 0),
                    forall|other: int|
                        owner_idx < other < self.player_count ==> #[trigger] dealt(
                            state@,
                            other,
                            0,
                            0,
                        ),
                decreases self.cards_per_player - card_idx,
            {
                let card_id = CardId::new((card_idx % 5 + 1) as u32);
                let ghost before = state@;
                let entity_id = state.alloc_entity();
                let card = CardInstance::new(entity_id, card_id, player, deck);
                state.add_card(card);
                proof {
                    assert forall|other: int| 0 <= other < owner_idx implies #[trigger] dealt(
                        state@,
                        other,
                        self.cards_per_player as int,
                        0,
                    ) by {
                        assert(dealt(before, other, self.cards_per_player as int, 0));
                    }
                    assert forall|other: int|
                        owner_idx < other < self.player_count implies #[trigger] dealt(
                        state@,
                        other,
                        0,
                        0,
                    ) by {
                        assert(dealt(before, other, 0, 0));
                    }
                    assert(dealt(before, owner_idx as int, card_idx as int, 0));
                    assert(!before.zones.locations.contains_key(entity_id.0));
                    assert(state@.zones.locations.dom() =~= before.zones.locations.dom().insert(
                        entity_id.0,
                    ));
                }
                card_idx = card_idx + 1;
            }
            let ghost before = state@;
            state.zones.shuffle_zone(deck, &mut state.rng);
            proof {
                assert forall|other: int| 0 <= other < owner_idx + 1 implies #[trigger] dealt(
                    state@,
                    other,
                    self.cards_per_player as int,
                    0,
                ) by {
                    assert(dealt(before, other, self.cards_per_player as int, 0));
                }
                assert forall|other: int|
                    owner_idx + 1 <= other < self.player_count implies #[trigger] dealt(
                    state@,
                    other,
                    0,
                    0,
                ) by {
                    assert(dealt(before, other, 0, 0));
                }
            }
            owner_idx = owner_idx + 1;
        }
        proof {
            assert(self.player_count * (self.cards_per_player + 1) == self.player_count
                + self.player_count * self.cards_per_player) by (nonlinear_arith);
        }
        proof {
            assert(self.cards_per_player < u32::MAX) by (nonlinear_arith)
                requires
                    self.player_count >= 1,
                    self.player_count * (self.cards_per_player + 1) < u32::MAX,
            ;
        }
        proof {
            assert forall|other: int| 0 <= other < self.player_count implies #[trigger] hand_holds(
                state@,
                other,
                0,
            ) by {
                lemma_empty_hand(state@, other);
            }
        }
        let mut drawer_idx: usize = 0;
        while drawer_idx < self.player_count
            invariant
                drawer_idx <= self.player_count <= 8,
                player_zones@.len() == self.player_count,
                state@.wf(),
                state@.cards_placed(),
                state@.public.player_count == self.player_count,
                state@.next_entity_id == self.player_count * (self.cards_per_player + 1),
                forall|player: int|
                    0 <= player < self.player_count ==> (
                    #[trigger] state@.public.player_state[player]).contains_key("life"@)
                        && state@.public.player_state[player]["life"@] == self.starting_life,
                self.cards_per_player < u32::MAX,
                forall|i: int|
                    0 <= i < player_zones@.len() ==> (#[trigger] player_zones@[i]).deck.0 == 3 * i
                        && player_zones@[i].hand.0 == 3 * i + 1,
                state@.hands_consistent(),
                all_cards(state@),
                state@.zones.locations.len() == self.player_count * self.cards_per_player,
                forall|zone: u32| #[trigger]
                    state@.zones.orders.contains_key(zone) ==> zone % 3 != 1,
                forall|other: int|
                    0 <= other < drawer_idx ==> #[trigger] hand_holds(
                        state@,
                        other,
                        least(self.starting_hand_size as int, self.cards_per_player as int),
                    ),
                forall|other: int|
                    drawer_idx <= other < self.player_count ==> #[trigger] hand_holds(
                        state@,
                        other,
                        0,
                    ),
                forall|other: int|
                    0 <= other < drawer_idx ==> #[trigger] dealt(
                        state@,
                        other,
                        self.cards_per_player - least(
                            self.starting_hand_size as int,
                            self.cards_per_player as int,
                        ),
                        least(self.starting_hand_size as int, self.cards_per_player as int),
                    ),
                forall|other: int|
                    drawer_idx <= other < self.player_count ==> #[trigger] dealt(
                        state@,
                        other,
                        self.cards_per_player as int,
                        0,
                    ),
            decreases self.player_count - drawer_idx,
        {
            let player = PlayerId::new(drawer_idx as u8);
            let zones = player_zones[drawer_idx];
            let mut drawn: usize = 0;
            while drawn < self.starting_hand_size
                invariant
                    drawn <= self.starting_hand_size,
                    (player.0 as int) < self.player_count,
                    state@.wf(),
                    state@.cards_placed(),
                    state@.public.player_count == self.player_count,
                    state@.next_entity_id == self.player_count * (self.cards_per_player + 1),
                    forall|other: int|
                        0 <= other < self.player_count ==> (
                        #[trigger] state@.public.player_state[other]).contains_key("life"@)
                            && state@.public.player_state[other]["life"@] == self.starting_life,
                    self.cards_per_player < u32::MAX,
                    drawer_idx < self.player_count <= 8,
                    player.0 == drawer_idx,
                    zones.deck.0 == 3 * drawer_idx,
                    zones.hand.0 == 3 * drawer_idx + 1,
                    state@.hands_consistent(),
                    all_cards(state@),
                    state@.zones.locations.len() == self.player_count * self.cards_per_player,
                    forall|zone: u32| #[trigger]
                        state@.zones.orders.contains_key(zone) ==> zone % 3 != 1,
                    forall|other: int|
                        0 <= other < drawer_idx ==> #[trigger] hand_holds(
                            state@,
                            other,
                            least(self.starting_hand_size as int, self.cards_per_player as int),
                        ),
                    hand_holds(
                        state@,
                        drawer_idx as int,
                        least(drawn as int, self.cards_per_player as int),
                    ),
                    forall|other: int|
                        drawer_idx < other < self.player_count ==> #[trigger] hand_holds(
                            state@,
                            other,
                            0,
                        ),
                    forall|other: int|
                        0 <= other < drawer_idx ==> #[trigger] dealt(
                            state@,
                            other,
                            self.cards_per_player - least(
                                self.starting_hand_size as int,
                                self.cards_per_player as int,
                            ),
                            least(self.starting_hand_size as int, self.cards_per_player as int),
                        ),
                    dealt(
                        state@,
                        drawer_idx as int,
                        self.cards_per_player - least(drawn as int, self.cards_per_player as int),
                        least(drawn as int, self.cards_per_player as int),
                    ),
                    forall|other: int|
                        drawer_idx < other < self.player_count ==> #[trigger] dealt(
                            state@,
                            other,
                            self.cards_per_player as int,
                            0,
                        ),
                decreases self.starting_hand_size - drawn,
            {
                let ghost before = state@;
                proof {
                    lemma_draw_step_keeps(state@, player, zones.deck, zones.hand);
                    assert(dealt(
                        before,
                        drawer_idx as int,
                        self.cards_per_player - least(drawn as int, self.cards_per_player as int),
                        least(drawn as int, self.cards_per_player as int),
                    ));
                    if before.zones.order(zones.deck).len() > 0 {
                        let card = before.zones.order(zones.deck).last();
                        assert(before.zones.orders[zones.deck.0 as u32].contains(card));
                        assert(before.zones.zone_of(card) == Some(zones.deck));
                        assert(before.cards.contains_key(card.0));
                    }
                }
                let _ = EffectResolver::draw_one(&mut state, player, zones.deck, zones.hand);
                proof {
                    assert forall|other: int| 0 <= other < drawer_idx implies #[trigger] dealt(
                        state@,
                        other,
                        self.cards_per_player - least(
                            self.starting_hand_size as int,
                            self.cards_per_player as int,
                        ),
                        least(self.starting_hand_size as int, self.cards_per_player as int),
                    ) by {
                        assert(dealt(
                            before,
                            other,
                            self.cards_per_player - least(
                                self.starting_hand_size as int,
                                self.cards_per_player as int,
                            ),
                            least(self.starting_hand_size as int, self.cards_per_player as int),
                        ));
                    }
                    assert forall|other: int|
                        drawer_idx < other < self.player_count implies #[trigger] dealt(
                        state@,
                        other,
                        self.cards_per_player as int,
                        0,
                    ) by {
                        assert(dealt(before, other, self.cards_per_player as int, 0));
                    }
                    assert(all_cards(state@));
                    assert(state@.zones.locations.dom() =~= before.zones.locations.dom());
                    if before.zones.order(zones.deck).len() > 0 {
                        let card = before.zones.order(zones.deck).last();
                        assert forall|other: int| 0 <= other < drawer_idx implies #[trigger] hand_holds(
                            state@,
                            other,
                            least(self.starting_hand_size as int, self.cards_per_player as int),
                        ) by {
                            lemma_same_hand(
                                before,
                                state@,
                                other,
                                least(self.starting_hand_size as int, self.cards_per_player as int),
                            );
                        }
                        assert forall|other: int|
                            drawer_idx < other < self.player_count implies #[trigger] hand_holds(
                            state@,
                            other,
                            0,
                        ) by {
                            lemma_same_hand(before, state@, other, 0);
                        }
                        lemma_hand_gains(
                            before,
                            state@,
                            drawer_idx as int,
                            least(drawn as int, self.cards_per_player as int),
                            card,
                        );
                    }
                }
                drawn = drawn + 1;
            }
            drawer_idx = drawer_idx + 1;
        }
        let game = SimpleGame { config, registry, templates, player_zones };
        (game, state)
    }
}

impl Default for SimpleGameBuilder {
    fn default() -> (builder: Self)
        ensures
            builder.players() == 2,
            builder.life() == 20,
            builder.cards() == 10,
            builder.hand() == 3,
    {
        SimpleGameBuilder::new()
    }
}

impl SimpleGame {
    /// The number of players the game was built for.
    pub closed spec fn player_total(&self) -> usize {
        self.config.player_count
    }

    /// Every player has zones, and the card registry is in order.
    pub closed spec fn wf(&self) -> bool {
        self.player_zones@.len() == self.config.player_count && self.registry.wf()
    }

    /// The zones of a player.
    pub closed spec fn zones_of(&self, player: PlayerId) -> PlayerZones {
        self.player_zones@[player.0 as int]
    }

    /// Whether the game has zones for a player.
    pub closed spec fn knows(&self, player: PlayerId) -> bool {
        (player.0 as int) < self.player_zones@.len()
    }

    /// The templates a player may use: none unless the player is to move,
    /// known to the game and alive; drawing while the deck has cards;
    /// playing while the player holds cards and has an opponent; passing.
    pub closed spec fn templates_for(&self, state: GameStateView, player: PlayerId) -> Seq<
        TemplateId,
    > {
        if state.public.active_player != player || !self.knows(player) || !alive_in(
            state.public,
            player,
        ) {
            Seq::empty()
        } else {
            let draw = if state.zones.size(self.zones_of(player).deck) > 0 {
                seq![self.templates.draw]
            } else {
                Seq::empty()
            };
            let play = if (player.0 as int) < state.public.hand_sizes.len()
                && state.public.hand_sizes[player.0 as int] > 0 && opponents_of(
                state.public,
                player,
            ).len() > 0 {
                seq![self.templates.play]
            } else {
                Seq::empty()
            };
            draw + play + seq![self.templates.pass]
        }
    }

    /// The game after a player played a card at another: the card is on
    /// top of the player's discard pile, it has left the player's hand,
    /// which is one card smaller, and the target has lost as much life as
    /// the card has power. Nothing changes where the action does not name
    /// a card that the player holds and a player of the game.
    pub closed spec fn played(&self, state: GameStateView, player: PlayerId, action: ActionView) -> GameStateView {
        if action.pointers.len() < 2 {
            state
        } else {
            match action.pointers[1].spec_as_player_index(state.public.player_count) {
                None => state,
                Some(index) => {
                    let target = PlayerId(index);
                    if (index as int) >= state.public.player_state.len() || (player.0 as int)
                        >= state.public.hand_sizes.len() || (player.0 as int) >= state.hands.len()
                        || state.public.hand_sizes[player.0 as int] == 0 {
                        state
                    } else {
                        let card = action.pointers[0];
                        match state.card(card) {
                            None => state,
                            Some(instance) => {
                                let hand = state.hands[player.0 as int];
                                if !hand.contains(instance.card_id) {
                                    state
                                } else {
                                    let discarded = moved_card(
                                        state,
                                        card,
                                        self.zones_of(player).discard,
                                        Some(ZonePosition::Top),
                                    );
                                    GameStateView {
                                        hands: state.hands.update(
                                            player.0 as int,
                                            hand.remove(
                                                hand.index_of_first(instance.card_id).unwrap(),
                                            ),
                                        ),
                                        public: state.public.with_hand_size(
                                            player,
                                            (state.public.hand_sizes[player.0 as int] - 1) as u32,
                                        ).with_player_value(
                                            target,
                                            "life"@,
                                            state.public.player_value(target, "life"@, 0).wrapping_add(
                                                0i64.wrapping_sub(self.power_of(instance.card_id)),
                                            ),
                                        ),
                                        ..discarded
                                    }
                                }
                            },
                        }
                    }
                },
            }
        }
    }

    /// The game after the move of an action alone: a draw moves the top
    /// card of the player's deck to the hand, a play is as `played` says,
    /// and anything else changes nothing, as does any action of a player
    /// the game has no zones for.
    pub closed spec fn moved(&self, state: GameStateView, player: PlayerId, action: ActionView) -> GameStateView {
        if !self.knows(player) {
            state
        } else if action.template == self.templates.draw {
            if (player.0 as int) < state.public.hand_sizes.len() && (player.0 as int)
                < state.hands.len() {
                draw_step(state, player, self.zones_of(player).deck, self.zones_of(player).hand)
            } else {
                state
            }
        } else if action.template == self.templates.play {
            self.played(state, player, action)
        } else {
            state
        }
    }

    /// The game after an action of a player: the move is made, the turn
    /// goes on, and the action is in the history.
    pub open spec fn applied(&self, state: GameStateView, player: PlayerId, action: ActionView) -> GameStateView {
        let moved = self.moved(state, player, action);
        GameStateView {
            public: noted(turn_passed(moved.public, player), player, action),
            ..moved
        }
    }

    /// The templates of the game.
    pub fn templates(&self) -> (templates: &Templates)
        ensures
            templates.draw == self.draw_template(),
            templates.play == self.play_template(),
            templates.pass == self.pass_template(),
    {
        &self.templates
    }

    /// The template of drawing.
    pub closed spec fn draw_template(&self) -> TemplateId {
        self.templates.draw
    }

    /// The template of playing a card.
    pub closed spec fn play_template(&self) -> TemplateId {
        self.templates.play
    }

    /// The template of passing.
    pub closed spec fn pass_template(&self) -> TemplateId {
        self.templates.pass
    }

    /// The zones of a player of the game.
    pub fn player_zones(&self, player: PlayerId) -> (zones: &PlayerZones)
        requires
            self.knows(player),
        ensures
            *zones == self.zones_of(player),
    {
        &self.player_zones[player.index()]
    }

    /// The card definitions of the game.
    pub closed spec fn cards(&self) -> CardRegistry {
        self.registry
    }

    /// The card definitions of the game: what `card_power` reads the
    /// power of a card from.
    pub fn registry(&self) -> (registry: &CardRegistry)
        ensures
            *registry == self.cards(),
    {
        &self.registry
    }

    /// The power of a card; 0 for a card the game does not know.
    pub fn card_power(&self, card_id: CardId) -> (power: i64)
        ensures
            power == self.power_of(card_id),
    {
        match self.registry.get(card_id) {
            Some(definition) => definition.get_int("power", 0),
            None => 0,
        }
    }

    /// The power of a card; 0 for a card the game does not know.
    pub open spec fn power_of(&self, card_id: CardId) -> i64 {
        if self.cards().has(card_id) {
            match self.cards()@[card_id.0].attr("power"@) {
                Some(AttributeValue::Int(power)) => power,
                _ => 0,
            }
        } else {
            0
        }
    }

    /// Whether a player has life left.
    pub fn is_alive(&self, state: &GameState, player: PlayerId) -> (alive: bool)
        ensures
            alive == alive_in(state@.public, player),
    {
        player.index() < state.public.player_state.player_count()
            && state.public.get_player_state(player, "life", 0) > 0
    }

    /// The players with life left, in index order.
    pub fn alive_players(&self, state: &GameState) -> (alive: Vec<PlayerId>)
        ensures
            alive@ == alive_players_of(state@.public),
    {
        let players = PlayerId::all(state.player_count());
        let ghost all = all_players(state@.public.player_count);
        let ghost keep = living(state@.public);
        let mut alive: Vec<PlayerId> = Vec::new();
        let mut next: usize = 0;
        proof {
            reveal(Seq::filter);
            assert(players@ =~= all);
            assert(all.take(0) =~= Seq::<PlayerId>::empty());
        }
        while next < players.len()
            invariant
                next <= players@.len(),
                players@ == all,
                keep == living(state@.public),
                alive@ == all.take(next as int).filter(keep),
            decreases players@.len() - next,
        {
            let player = players[next];
            proof {
                assert(all.take(next as int + 1) =~= all.take(next as int).push(player));
                all.take(next as int).lemma_filter_push(player, keep);
            }
            if self.is_alive(state, player) {
                alive.push(player);
            }
            next = next + 1;
        }
        proof {
            assert(all.take(all.len() as int) =~= all);
        }
        alive
    }

    /// The players with life left other than one, in index order.
    pub fn opponents(&self, state: &GameState, player: PlayerId) -> (others: Vec<PlayerId>)
        ensures
            others@ == opponents_of(state@.public, player),
    {
        let alive = self.alive_players(state);
        let ghost keep = other_player(player);
        let mut others: Vec<PlayerId> = Vec::new();
        let mut next: usize = 0;
        proof {
            reveal(Seq::filter);
            assert(alive@.take(0) =~= Seq::<PlayerId>::empty());
        }
        while next < alive.len()
            invariant
                next <= alive@.len(),
                keep == other_player(player),
                others@ == alive@.take(next as int).filter(keep),
            decreases alive@.len() - next,
        {
            let other = alive[next];
            proof {
                assert(alive@.take(next as int + 1) =~= alive@.take(next as int).push(other));
                alive@.take(next as int).lemma_filter_push(other, keep);
            }
            if other != player {
                others.push(other);
            }
            next = next + 1;
        }
        proof {
            assert(alive@.take(alive@.len() as int) =~= alive@);
        }
        others
    }

    /// Plays a card at a player, if the action names both and the player
    /// holds a card: the card goes on top of the discard pile and the
    /// target loses as much life as the card has power.
    fn play_card(&self, state: &mut GameState, player: PlayerId, action: &Action)
        requires
            self.knows(player),
        ensures
            final(state)@ == self.played(old(state)@, player, action@),
            old(state)@.wf() ==> final(state)@.wf(),
            old(state)@.wf() && old(state)@.cards_placed() ==> final(state)@.cards_placed(),
            old(state)@.hands_consistent() ==> final(state)@.hands_consistent(),
            final(state)@.public.player_count == old(state)@.public.player_count,
            final(state)@.public.turn_number == old(state)@.public.turn_number,
            final(state)@.public.action_sequence == old(state)@.public.action_sequence,
            final(state)@.public.action_history == old(state)@.public.action_history,
    {
        if action.pointers.len() < 2 {
            return ;
        }
        let card_entity = action.pointers[0];
        let target_entity = action.pointers[1];
        let target = match target_entity.as_player(state.player_count()) {
            Some(target) => target,
            None => {
                return ;
            },
        };
        if target.index() >= state.public.player_state.player_count() || player.index()
            >= state.public.hand_sizes.player_count() || player.index()
            >= state.hands.player_count() || *state.public.hand_sizes.get(player) == 0 {
            return ;
        }
        let card_id = match state.get_card(card_entity) {
            Some(card) => card.card_id,
            None => {
                return ;
            },
        };
        let power = self.card_power(card_id);
        if !state.remove_from_hand(player, card_id) {
            return ;
        }
        let discard = self.player_zones[player.index()].discard;
        proof {
            if state@.wf() {
                lemma_moved_card_keeps(state@, card_entity, discard, Some(ZonePosition::Top));
            }
        }
        EffectResolver::move_card(state, card_entity, discard, Some(ZonePosition::Top));
        state.public.modify_player_state(target, "life", 0i64.wrapping_sub(power));
    }
}

impl RulesEngine for SimpleGame {
    fn config(&self) -> (config: &GameConfig)
        ensures
            config.player_count == self.player_total(),
    {
        &self.config
    }

    fn legal_templates(&self, state: &GameState, player: PlayerId) -> (templates: Vec<TemplateId>)
        ensures
            templates@ == self.templates_for(state@, player),
    {
        let mut templates: Vec<TemplateId> = Vec::new();
        if state.public.active_player != player || player.index() >= self.player_zones.len()
            || !self.is_alive(state, player) {
            return templates;
        }
        let zones = self.player_zones[player.index()];
        if state.zones.zone_size(zones.deck) > 0 {
            templates.push(self.templates.draw);
        }
        if player.index() < state.public.hand_sizes.player_count() && *state.public.hand_sizes.get(
            player,
        ) > 0 && self.opponents(state, player).len() > 0 {
            templates.push(self.templates.play);
        }
        templates.push(self.templates.pass);
        proof {
            assert(templates@ =~= self.templates_for(state@, player));
        }
        templates
    }

    fn legal_pointers(
        &self,
        state: &GameState,
        player: PlayerId,
        template: TemplateId,
        prior_pointers: &[EntityId],
    ) -> (pointers: Vec<EntityId>)
        ensures
            template != self.play_template() || !self.knows(player) || prior_pointers@.len() > 1
                ==> pointers@.len() == 0,
            template == self.play_template() && self.knows(player) && prior_pointers@.len() == 0
                ==> pointers@.no_duplicates() && forall|entity: EntityId| #[trigger]
                pointers@.contains(entity) <==> state@.zones.zone_of(entity) == Some(
                    self.zones_of(player).hand,
                ),
            template == self.play_template() && self.knows(player) && prior_pointers@.len() == 1
                ==> pointers@.len() == opponents_of(state@.public, player).len() && forall|i: int|
                0 <= i < pointers@.len() ==> (#[trigger] pointers@[i]).0 == opponents_of(
                    state@.public,
                    player,
                )[i].0,
    {
        if template != self.templates.play || player.index() >= self.player_zones.len() {
            return Vec::new();
        }
        if prior_pointers.len() == 0 {
            state.zones.cards_in_zone(self.player_zones[player.index()].hand)
        } else if prior_pointers.len() == 1 {
            let others = self.opponents(state, player);
            let mut pointers: Vec<EntityId> = Vec::new();
            let mut next: usize = 0;
            while next < others.len()
                invariant
                    next <= others@.len(),
                    pointers@.len() == next,
                    forall|i: int| 0 <= i < next ==> (#[trigger] pointers@[i]).0 == others@[i].0,
                decreases others@.len() - next,
            {
                pointers.push(EntityId::player(others[next]));
                next = next + 1;
            }
            pointers
        } else {
            Vec::new()
        }
    }

    /// Applies an action of a player: a draw moves the top card of the
    /// player's deck to the hand, a play discards a card and takes life
    /// from its target, and anything else is a pass. Then the turn goes to
    /// the next player alive, and the action is recorded. An action that
    /// cannot be taken as it is given is taken as a pass.
    fn apply_action(&mut self, state: &mut GameState, player: PlayerId, action: &Action)
        ensures
            *final(self) == *old(self),
            final(state)@ == old(self).applied(old(state)@, player, action@),
            old(state)@.wf() && old(state)@.hands_consistent() ==> final(state)@.hands_consistent(),
            old(state)@.wf() ==> final(state)@.wf(),
            old(state)@.wf() && old(state)@.cards_placed() ==> final(state)@.cards_placed(),
            final(state)@.public.player_count == old(state)@.public.player_count,
            final(state)@.public.turn_number == old(state)@.public.turn_number,
            old(state)@.public.action_sequence < u32::MAX ==> final(state)@.public.action_sequence
                == old(state)@.public.action_sequence + 1 && final(state)@.public.action_history
                == old(state)@.public.action_history.push(
                ActionRecordView {
                    player,
                    action: action@,
                    turn: old(state)@.public.turn_number,
                    sequence: old(state)@.public.action_sequence,
                },
            ),
    {
        if player.index() < self.player_zones.len() {
            if action.template == self.templates.draw {
                if player.index() < state.public.hand_sizes.player_count() && player.index()
                    < state.hands.player_count() {
                    let zones = self.player_zones[player.index()];
                    proof {
                        if state@.wf() {
                            lemma_draw_step_keeps(state@, player, zones.deck, zones.hand);
                        }
                    }
                    let _ = EffectResolver::draw_one(state, player, zones.deck, zones.hand);
                }
            } else if action.template == self.templates.play {
                self.play_card(state, player, action);
            }
        }
        let ghost moved = state@;
        let alive = self.alive_players(state);
        if alive.len() > 1 {
            let mut current: usize = 0;
            let mut found = false;
            while current < alive.len() && !found
                invariant
                    current <= alive@.len(),
                    found ==> current < alive@.len() && alive@[current as int] == player,
                    forall|k: int| 0 <= k < current ==> #[trigger] alive@[k] != player,
                decreases alive@.len() - current + (if found { 0int } else { 1int }),
            {
                if alive[current] == player {
                    found = true;
                } else {
                    current = current + 1;
                }
            }
            let at = if found {
                current
            } else {
                0
            };
            let next_player = alive[(at + 1) % alive.len()];
            proof {
                if found {
                    let seat = first_seat(alive@, player);
                    assert(alive@.contains(player));
                    if seat < at {
                        assert(alive@[seat] != player);
                    }
                    if at < seat {
                        assert(alive@[at as int] != player);
                    }
                } else {
                    assert(!alive@.contains(player));
                }
                assert(at == first_seat(alive@, player));
                let all = all_players(state@.public.player_count);
                all.lemma_filter_contains_rev(living(state@.public), next_player);
            }
            state.public.set_active_player(next_player);
            state.public.set_priority(next_player);
        }
        if state.public.action_sequence < u32::MAX {
            let sequence = state.public.next_sequence();
            let turn = state.public.turn_number;
            state.public.record_action(ActionRecord::new(player, action.clone(), turn, sequence));
        }
        proof {
            assert(moved == self.moved(old(state)@, player, action@));
            assert(state@.public == noted(turn_passed(moved.public, player), player, action@));
        }
    }

    fn is_terminal(&self, state: &GameState) -> (result: Option<GameResult>)
        ensures
            alive_players_of(state@.public).len() == 0 ==> (result matches Some(ended) && ended@
                == GameResultView::Draw),
            alive_players_of(state@.public).len() == 1 ==> (result matches Some(ended) && ended@
                == GameResultView::Winner(alive_players_of(state@.public)[0])),
            alive_players_of(state@.public).len() > 1 ==> result is None,
    {
        let alive = self.alive_players(state);
        if alive.len() == 0 {
            Some(GameResult::Draw)
        } else if alive.len() == 1 {
            Some(GameResult::Winner(alive[0]))
        } else {
            None
        }
    }
}

} // verus!
