//! Choosing targets.
//!
//! A `TargetSpec` says what an ability may target: players or the cards of
//! some zones, narrowed by filters, and how many. A `TargetSelector` binds
//! a spec to the player who acts and lists or checks targets in a state.

use crate::base::config::ZoneId;
use crate::base::entity::EntityId;
use crate::base::player::PlayerId;
use crate::base::state::{GameState, GameStateView};
use crate::cards::definition::CardTypeId;
use vstd::prelude::*;

verus! {

/// What kind of entity can be targeted.
#[derive(Clone, Debug, PartialEq, Eq)]
pub enum TargetType {
    /// Players.
    Player,
    /// The cards of the given zones.
    Card { zones: Vec<ZoneId> },
    /// Anything; only players are listed.
    Any,
}

/// How many targets must be chosen.
#[derive(Clone, Copy, Debug, PartialEq, Eq, Structural)]
pub enum TargetCount {
    Exactly(usize),
    UpTo(usize),
    AtLeast(usize),
    Range { min: usize, max: usize },
    All,
}

/// A condition that a target must meet.
#[derive(Clone, Debug, PartialEq, Eq)]
pub enum TargetFilter {
    /// A player other than the acting one.
    Opponent,
    /// The acting player.
    Self_,
    /// Anything but the acting player.
    NotSelf,
    /// One player.
    SpecificPlayer(PlayerId),
    /// An entity in a zone.
    InZone(ZoneId),
    /// A card of a kind. Never met here: the selector does not know the
    /// card definitions, and games filter by kind with `Custom`.
    HasCardType(CardTypeId),
    /// A card that a player owns.
    OwnedBy(PlayerId),
    /// A card that a player controls.
    ControlledBy(PlayerId),
    /// A player or card whose value under `key` (0 where there is none)
    /// lies within the bounds that are given.
    StateInRange { key: String, min: Option<i64>, max: Option<i64> },
    /// Anything but the source of the ability.
    NotSource,
    /// A condition of the game's own; met here, and checked by the game.
    Custom(String),
}

/// What an ability may target.
#[derive(Clone, Debug, PartialEq, Eq)]
pub struct TargetSpec {
    pub target_type: TargetType,
    pub filters: Vec<TargetFilter>,
    pub count: TargetCount,
    pub optional: bool,
}

impl TargetSpec {
    /// Exactly one player.
    pub fn single_player() -> (spec: Self)
        ensures
            spec.target_type == TargetType::Player,
            spec.filters@.len() == 0,
            spec.count == TargetCount::Exactly(1),
            !spec.optional,
    {
        TargetSpec {
            target_type: TargetType::Player,
            filters: Vec::new(),
            count: TargetCount::Exactly(1),
            optional: false,
        }
    }

    /// Exactly one opponent.
    pub fn single_opponent() -> (spec: Self)
        ensures
            spec.target_type == TargetType::Player,
            spec.filters@ == seq![TargetFilter::Opponent],
            spec.count == TargetCount::Exactly(1),
            !spec.optional,
    {
        let mut filters: Vec<TargetFilter> = Vec::new();
        filters.push(TargetFilter::Opponent);
        assert(filters@ =~= seq![TargetFilter::Opponent]);
        TargetSpec {
            target_type: TargetType::Player,
            filters,
            count: TargetCount::Exactly(1),
            optional: false,
        }
    }

    /// Exactly one card of the given zones.
    pub fn single_card(zones: Vec<ZoneId>) -> (spec: Self)
        ensures
            spec.target_type == (TargetType::Card { zones }),
            spec.filters@.len() == 0,
            spec.count == TargetCount::Exactly(1),
            !spec.optional,
    {
        TargetSpec {
            target_type: TargetType::Card { zones },
            filters: Vec::new(),
            count: TargetCount::Exactly(1),
            optional: false,
        }
    }

    /// As many cards of the given zones as `count` says.
    pub fn multiple_cards(zones: Vec<ZoneId>, count: TargetCount) -> (spec: Self)
        ensures
            spec.target_type == (TargetType::Card { zones }),
            spec.filters@.len() == 0,
            spec.count == count,
            !spec.optional,
    {
        TargetSpec {
            target_type: TargetType::Card { zones },
            filters: Vec::new(),
            count,
            optional: false,
        }
    }

    /// The same spec with one more filter, checked last.
    pub fn with_filter(self, filter: TargetFilter) -> (spec: Self)
        ensures
            spec.filters@ == self.filters@.push(filter),
            spec.target_type == self.target_type,
            spec.count == self.count,
            spec.optional == self.optional,
    {
        let mut spec = self;
        spec.filters.push(filter);
        spec
    }

    /// The same spec, but choosing nothing is allowed.
    pub fn optional(self) -> (spec: Self)
        ensures
            spec == (TargetSpec { optional: true, ..self }),
    {
        let mut spec = self;
        spec.optional = true;
        spec
    }
}

/// Whether a value lies within the bounds that are given.
pub open spec fn in_bounds(value: i64, min: Option<i64>, max: Option<i64>) -> bool {
    (min matches Some(low) ==> value >= low) && (max matches Some(high) ==> value <= high)
}

/// A spec bound to the player who acts and, where known, to the source of
/// the ability.
#[derive(Clone, Debug)]
pub struct TargetSelector {
    pub spec: TargetSpec,
    pub acting_player: PlayerId,
    pub source_entity: Option<EntityId>,
}

/// The entities of the players of a game, in index order.
pub open spec fn player_entities(player_count: usize) -> Seq<EntityId> {
    Seq::new(player_count as nat, |i: int| EntityId(i as u32))
}

impl TargetSelector {
    /// Whether an entity meets one filter.
    pub open spec fn meets(&self, state: GameStateView, entity: EntityId, filter: TargetFilter) -> bool {
        let index = entity.spec_as_player_index(state.public.player_count);
        match filter {
            TargetFilter::Opponent => index matches Some(i) && PlayerId(i) != self.acting_player,
            TargetFilter::Self_ => index matches Some(i) && PlayerId(i) == self.acting_player,
            TargetFilter::NotSelf => index matches Some(i) ==> PlayerId(i) != self.acting_player,
            TargetFilter::SpecificPlayer(player) => index matches Some(i) && PlayerId(i) == player,
            TargetFilter::InZone(zone) => state.zones.zone_of(entity) == Some(zone),
            TargetFilter::HasCardType(_) => false,
            TargetFilter::OwnedBy(player) => state.card(entity) matches Some(card) && card.owner
                == Some(player),
            TargetFilter::ControlledBy(player) => state.card(entity) matches Some(card)
                && card.controller == Some(player),
            TargetFilter::StateInRange { key, min, max } => match index {
                Some(i) => in_bounds(state.public.player_value(PlayerId(i), key@, 0), min, max),
                None => state.card(entity) matches Some(card) && in_bounds(
                    card.value(key@, 0),
                    min,
                    max,
                ),
            },
            TargetFilter::NotSource => self.source_entity != Some(entity),
            TargetFilter::Custom(_) => true,
        }
    }

    /// Whether an entity meets every filter of the spec.
    pub open spec fn meets_all(&self, state: GameStateView, entity: EntityId) -> bool {
        forall|i: int|
            0 <= i < self.spec.filters@.len() ==> self.meets(
                state,
                entity,
                #[trigger] self.spec.filters@[i],
            )
    }

    /// The entities that meet every filter.
    pub open spec fn passing(&self, state: GameStateView) -> spec_fn(EntityId) -> bool {
        |entity: EntityId| self.meets_all(state, entity)
    }

    /// Whether an entity is a valid target: of the kind the spec asks for,
    /// and meeting every filter.
    pub open spec fn targetable(&self, state: GameStateView, entity: EntityId) -> bool {
        self.meets_all(state, entity) && match self.spec.target_type {
            TargetType::Card { zones } => exists|i: int|
                0 <= i < zones@.len() && state.zones.zone_of(entity) == Some(#[trigger] zones@[i]),
            _ => (entity.0 as int) < state.public.player_count,
        }
    }

    /// The valid targets among the cards of one zone.
    pub open spec fn zone_hits(&self, state: GameStateView, zone: ZoneId) -> Set<EntityId> {
        Set::new(
            |entity: EntityId|
                state.zones.zone_of(entity) == Some(zone) && self.meets_all(state, entity),
        )
    }

    /// The number of valid targets among the cards of the first `done` of
    /// the given zones; a zone given twice counts twice.
    pub open spec fn hits_in(&self, state: GameStateView, zones: Seq<ZoneId>, done: int) -> nat
        decreases done,
    {
        if done <= 0 {
            0
        } else {
            self.hits_in(state, zones, done - 1) + self.zone_hits(state, zones[done - 1]).len()
        }
    }

    /// The number of targets that `valid_targets` lists.
    pub open spec fn target_count(&self, state: GameStateView) -> nat {
        match self.spec.target_type {
            TargetType::Card { zones } => self.hits_in(state, zones@, zones@.len() as int),
            _ => player_entities(state.public.player_count).filter(self.passing(state)).len(),
        }
    }

    /// The fewest targets that the spec asks for.
    pub open spec fn min_required(&self) -> usize {
        match self.spec.count {
            TargetCount::Exactly(n) => n,
            TargetCount::AtLeast(n) => n,
            TargetCount::Range { min, max } => min,
            TargetCount::UpTo(_) => 0,
            TargetCount::All => 0,
        }
    }

    /// Whether a number of targets is one that the spec allows.
    pub open spec fn count_allowed(&self, chosen: nat) -> bool {
        match self.spec.count {
            TargetCount::Exactly(n) => chosen == n,
            TargetCount::UpTo(n) => chosen <= n,
            TargetCount::AtLeast(n) => chosen >= n,
            TargetCount::Range { min, max } => min <= chosen <= max,
            TargetCount::All => true,
        }
    }

    /// A selector for the player who acts, without a source.
    pub fn new(spec: TargetSpec, acting_player: PlayerId) -> (selector: Self)
        ensures
            selector.spec == spec,
            selector.acting_player == acting_player,
            selector.source_entity is None,
    {
        TargetSelector { spec, acting_player, source_entity: None }
    }

    /// The same selector for an ability of the given source.
    pub fn with_source(self, source: EntityId) -> (selector: Self)
        ensures
            selector == (TargetSelector { source_entity: Some(source), ..self }),
    {
        let mut selector = self;
        selector.source_entity = Some(source);
        selector
    }

    /// The players that meet every filter, in index order.
    fn valid_players(&self, state: &GameState) -> (targets: Vec<EntityId>)
        requires
            state@.wf(),
        ensures
            targets@ == player_entities(state@.public.player_count).filter(self.passing(state@)),
            forall|entity: EntityId| #[trigger]
                targets@.contains(entity) <==> (entity.0 as int) < state@.public.player_count
                    && self.meets_all(state@, entity),
    {
        let player_count = state.player_count();
        let players = PlayerId::all(player_count);
        let ghost all = player_entities(player_count);
        let ghost keep = self.passing(state@);
        let mut targets: Vec<EntityId> = Vec::new();
        let mut next: usize = 0;
        proof {
            reveal(Seq::filter);
            assert(all.take(0) =~= Seq::<EntityId>::empty());
        }
        while next < players.len()
            invariant
                next <= players@.len(),
                players@.len() == player_count,
                player_count == state@.public.player_count,
                state@.wf(),
                all == player_entities(player_count),
                keep == self.passing(state@),
                forall|i: int| 0 <= i < players@.len() ==> (#[trigger] players@[i]).0 == i,
                targets@ == all.take(next as int).filter(keep),
            decreases players@.len() - next,
        {
            let entity = EntityId::player(players[next]);
            proof {
                assert(all[next as int] == entity);
                assert(all.take(next as int + 1) =~= all.take(next as int).push(entity));
                all.take(next as int).lemma_filter_push(entity, keep);
            }
            if self.passes_filters(state, entity, player_count) {
                targets.push(entity);
            }
            next = next + 1;
        }
        proof {
            assert(all.take(all.len() as int) =~= all);
            assert forall|entity: EntityId| #[trigger]
                targets@.contains(entity) <==> (entity.0 as int) < state@.public.player_count
                    && self.meets_all(state@, entity) by {
                if targets@.contains(entity) {
                    all.lemma_filter_contains_rev(keep, entity);
                    let i = choose|i: int| 0 <= i < targets@.len() && targets@[i] == entity;
                    all.lemma_filter_pred(keep, i);
                }
                if (entity.0 as int) < state@.public.player_count && self.meets_all(
                    state@,
                    entity,
                ) {
                    assert(all[entity.0 as int] == entity);
                    all.lemma_filter_contains(keep, entity.0 as int);
                }
            }
        }
        targets
    }

    /// Adds the cards of one zone that meet every filter to the targets.
    fn add_zone_targets(&self, state: &GameState, zone: ZoneId, targets: &mut Vec<EntityId>)
        requires
            state@.wf(),
        ensures
            final(targets)@.len() == old(targets)@.len() + self.zone_hits(state@, zone).len(),
            forall|i: int| 0 <= i < old(targets)@.len() ==> final(targets)@[i] == old(targets)@[i],
            forall|entity: EntityId| #[trigger]
                final(targets)@.contains(entity) <==> old(targets)@.contains(entity)
                    || self.zone_hits(state@, zone).contains(entity),
    {
        let player_count = state.player_count();
        let cards = state.zones.cards_in_zone(zone);
        let ghost start = targets@;
        let ghost mut added: Seq<EntityId> = Seq::empty();
        let mut next: usize = 0;
        while next < cards.len()
            invariant
                next <= cards@.len(),
                state@.wf(),
                player_count == state@.public.player_count,
                cards@.no_duplicates(),
                forall|entity: EntityId| #[trigger]
                    cards@.contains(entity) <==> state@.zones.zone_of(entity) == Some(zone),
                targets@ == start + added,
                added.no_duplicates(),
                forall|entity: EntityId| #[trigger]
                    added.contains(entity) <==> self.meets_all(state@, entity) && exists|k: int|
                        0 <= k < next && cards@[k] == entity,
            decreases cards@.len() - next,
        {
            let entity = cards[next];
            let ghost before = added;
            if self.passes_filters(state, entity, player_count) {
                targets.push(entity);
                proof {
                    added = added.push(entity);
                    assert(targets@ =~= start + added);
                    assert(!before.contains(entity)) by {
                        if before.contains(entity) {
                            let k = choose|k: int| 0 <= k < next && cards@[k] == entity;
                            assert(cards@[k] == cards@[next as int]);
                        }
                    }
                    assert forall|i: int, j: int|
                        0 <= i < added.len() && 0 <= j < added.len() && i != j implies added[i]
                        != added[j] by {
                        if i < before.len() {
                            assert(before.contains(before[i]));
                        }
                        if j < before.len() {
                            assert(before.contains(before[j]));
                        }
                    }
                }
            }
            proof {
                assert forall|other: EntityId| #[trigger]
                    added.contains(other) <==> self.meets_all(state@, other) && exists|k: int|
                        0 <= k < next + 1 && cards@[k] == other by {
                    if added.contains(other) {
                        let i = choose|i: int| 0 <= i < added.len() && added[i] == other;
                        if i < before.len() {
                            assert(before.contains(other));
                            let k = choose|k: int| 0 <= k < next && cards@[k] == other;
                            assert(0 <= k < next + 1 && cards@[k] == other);
                        } else {
                            assert(cards@[next as int] == other);
                        }
                    }
                    if self.meets_all(state@, other) && exists|k: int|
                        0 <= k < next + 1 && cards@[k] == other {
                        let k = choose|k: int| 0 <= k < next + 1 && cards@[k] == other;
                        if k < next {
                            assert(before.contains(other));
                            let i = choose|i: int| 0 <= i < before.len() && before[i] == other;
                            assert(added[i] == other);
                        } else {
                            assert(added[added.len() - 1] == other);
                        }
                    }
                }
            }
            next = next + 1;
        }
        proof {
            assert forall|entity: EntityId| #[trigger]
                added.contains(entity) <==> self.zone_hits(state@, zone).contains(entity) by {
                if self.zone_hits(state@, zone).contains(entity) {
                    assert(cards@.contains(entity));
                    let k = choose|k: int| 0 <= k < cards@.len() && cards@[k] == entity;
                    assert(0 <= k < next && cards@[k] == entity);
                }
                if added.contains(entity) {
                    let k = choose|k: int| 0 <= k < next && cards@[k] == entity;
                    assert(cards@.contains(cards@[k]));
                }
            }
            added.unique_seq_to_set();
            assert(added.to_set() =~= self.zone_hits(state@, zone));
            assert forall|entity: EntityId| #[trigger]
                targets@.contains(entity) <==> start.contains(entity) || added.contains(
                    entity,
                ) by {
                if targets@.contains(entity) {
                    let i = choose|i: int| 0 <= i < targets@.len() && targets@[i] == entity;
                    if i < start.len() {
                        assert(start[i] == entity);
                    } else {
                        assert(added[i - start.len()] == entity);
                    }
                }
                if start.contains(entity) {
                    let i = choose|i: int| 0 <= i < start.len() && start[i] == entity;
                    assert(targets@[i] == entity);
                }
                if added.contains(entity) {
                    let i = choose|i: int| 0 <= i < added.len() && added[i] == entity;
                    assert(targets@[i + start.len()] == entity);
                }
            }
        }
    }

    /// The valid targets in a state. Players come in index order. Cards
    /// come zone by zone in the order of the spec's zones, within a zone
    /// in no particular order; a zone given twice gives its cards twice.
    pub fn valid_targets(&self, state: &GameState) -> (targets: Vec<EntityId>)
        requires
            state@.wf(),
        ensures
            forall|entity: EntityId| #[trigger]
                targets@.contains(entity) <==> self.targetable(state@, entity),
            targets@.len() == self.target_count(state@),
            !(self.spec.target_type is Card) ==> targets@ == player_entities(
                state@.public.player_count,
            ).filter(self.passing(state@)),
    {
        match &self.spec.target_type {
            TargetType::Player => self.valid_players(state),
            TargetType::Any => self.valid_players(state),
            TargetType::Card { zones } => {
                let mut targets: Vec<EntityId> = Vec::new();
                let mut next: usize = 0;
                while next < zones.len()
                    invariant
                        next <= zones@.len(),
                        state@.wf(),
                        self.spec.target_type == (TargetType::Card { zones: *zones }),
                        targets@.len() == self.hits_in(state@, zones@, next as int),
                        forall|entity: EntityId| #[trigger]
                            targets@.contains(entity) <==> self.meets_all(state@, entity)
                                && exists|i: int|
                                0 <= i < next && state@.zones.zone_of(entity) == Some(
                                    #[trigger] zones@[i],
                                ),
                    decreases zones@.len() - next,
                {
                    let ghost before = targets@;
                    self.add_zone_targets(state, zones[next], &mut targets);
                    proof {
                        assert forall|entity: EntityId| #[trigger]
                            targets@.contains(entity) <==> self.meets_all(state@, entity)
                                && exists|i: int|
                                0 <= i < next + 1 && state@.zones.zone_of(entity) == Some(
                                    #[trigger] zones@[i],
                                ) by {
                            if before.contains(entity) {
                                let i = choose|i: int|
                                    0 <= i < next && state@.zones.zone_of(entity) == Some(
                                        #[trigger] zones@[i],
                                    );
                                assert(0 <= i < next + 1 && state@.zones.zone_of(entity) == Some(
                                    zones@[i],
                                ));
                            }
                            if self.zone_hits(state@, zones@[next as int]).contains(entity) {
                                assert(state@.zones.zone_of(entity) == Some(zones@[next as int]));
                            }
                            if self.meets_all(state@, entity) && exists|i: int|
                                0 <= i < next + 1 && state@.zones.zone_of(entity) == Some(
                                    #[trigger] zones@[i],
                                ) {
                                let i = choose|i: int|
                                    0 <= i < next + 1 && state@.zones.zone_of(entity) == Some(
                                        #[trigger] zones@[i],
                                    );
                                if i < next {
                                    assert(before.contains(entity));
                                } else {
                                    assert(self.zone_hits(state@, zones@[next as int]).contains(
                                        entity,
                                    ));
                                }
                            }
                        }
                    }
                    next = next + 1;
                }
                targets
            },
        }
    }

    /// Whether an entity meets every filter of the spec.
    fn passes_filters(&self, state: &GameState, entity: EntityId, player_count: usize) -> (passes:
        bool)
        requires
            state@.wf(),
            player_count == state@.public.player_count,
        ensures
            passes == self.meets_all(state@, entity),
    {
        let mut next: usize = 0;
        while next < self.spec.filters.len()
            invariant
                next <= self.spec.filters@.len(),
                state@.wf(),
                player_count == state@.public.player_count,
                forall|i: int|
                    0 <= i < next ==> self.meets(state@, entity, #[trigger] self.spec.filters@[i]),
            decreases self.spec.filters@.len() - next,
        {
            if !self.passes_filter(state, entity, &self.spec.filters[next], player_count) {
                return false;
            }
            next = next + 1;
        }
        true
    }

    /// Whether an entity meets one filter.
    fn passes_filter(
        &self,
        state: &GameState,
        entity: EntityId,
        filter: &TargetFilter,
        player_count: usize,
    ) -> (passes: bool)
        requires
            state@.wf(),
            player_count == state@.public.player_count,
        ensures
            passes == self.meets(state@, entity, *filter),
    {
        match filter {
            TargetFilter::Opponent => match entity.as_player_index(player_count) {
                Some(index) => PlayerId::new(index) != self.acting_player,
                None => false,
            },
            TargetFilter::Self_ => match entity.as_player_index(player_count) {
                Some(index) => PlayerId::new(index) == self.acting_player,
                None => false,
            },
            TargetFilter::NotSelf => match entity.as_player_index(player_count) {
                Some(index) => PlayerId::new(index) != self.acting_player,
                None => true,
            },
            TargetFilter::SpecificPlayer(player) => match entity.as_player_index(player_count) {
                Some(index) => PlayerId::new(index) == *player,
                None => false,
            },
            TargetFilter::InZone(zone) => state.zones.is_in_zone(entity, *zone),
            TargetFilter::HasCardType(_card_type) => false,
            TargetFilter::OwnedBy(player) => match state.get_card(entity) {
                Some(card) => match card.owner {
                    Some(owner) => owner == *player,
                    None => false,
                },
                None => false,
            },
            TargetFilter::ControlledBy(player) => match state.get_card(entity) {
                Some(card) => match card.controller {
                    Some(controller) => controller == *player,
                    None => false,
                },
                None => false,
            },
            TargetFilter::StateInRange { key, min, max } => {
                match entity.as_player_index(player_count) {
                    Some(index) => {
                        let value = state.public.get_player_state(
                            PlayerId::new(index),
                            key.as_str(),
                            0,
                        );
                        within(value, *min, *max)
                    },
                    None => match state.get_card(entity) {
                        Some(card) => {
                            let value = card.get_state(key.as_str(), 0);
                            within(value, *min, *max)
                        },
                        None => false,
                    },
                }
            },
            TargetFilter::NotSource => match self.source_entity {
                Some(source) => source != entity,
                None => true,
            },
            TargetFilter::Custom(_) => true,
        }
    }

    /// Whether the state offers as many targets as the spec asks for at
    /// least. An optional spec is always met.
    pub fn has_enough_targets(&self, state: &GameState) -> (enough: bool)
        requires
            state@.wf(),
        ensures
            enough == (self.spec.optional || self.target_count(state@) >= self.min_required()),
    {
        let targets = self.valid_targets(state);
        let min_required = match &self.spec.count {
            TargetCount::Exactly(n) => *n,
            TargetCount::AtLeast(n) => *n,
            TargetCount::Range { min, max } => *min,
            TargetCount::UpTo(_) => 0,
            TargetCount::All => 0,
        };
        if self.spec.optional {
            true
        } else {
            targets.len() >= min_required
        }
    }

    /// Whether a selection is one the spec allows: as many as the spec
    /// asks for (or none, for an optional spec), and valid targets all.
    pub fn validate_selection(&self, state: &GameState, selected: &[EntityId]) -> (valid: bool)
        requires
            state@.wf(),
        ensures
            valid == ((self.count_allowed(selected@.len()) || (self.spec.optional
                && selected@.len() == 0)) && forall|i: int|
                0 <= i < selected@.len() ==> self.targetable(state@, #[trigger] selected@[i])),
    {
        let count_valid = match &self.spec.count {
            TargetCount::Exactly(n) => selected.len() == *n,
            TargetCount::UpTo(n) => selected.len() <= *n,
            TargetCount::AtLeast(n) => selected.len() >= *n,
            TargetCount::Range { min, max } => selected.len() >= *min && selected.len() <= *max,
            TargetCount::All => true,
        };
        if !(count_valid || self.spec.optional && selected.len() == 0) {
            return false;
        }
        let targets = self.valid_targets(state);
        let mut next: usize = 0;
        while next < selected.len()
            invariant
                next <= selected@.len(),
                forall|entity: EntityId| #[trigger]
                    targets@.contains(entity) <==> self.targetable(state@, entity),
                forall|i: int| 0 <= i < next ==> self.targetable(state@, #[trigger] selected@[i]),
            decreases selected@.len() - next,
        {
            if !holds(&targets, selected[next]) {
                return false;
            }
            next = next + 1;
        }
        true
    }
}

/// Whether a value lies within the bounds that are given.
fn within(value: i64, min: Option<i64>, max: Option<i64>) -> (inside: bool)
    ensures
        inside == in_bounds(value, min, max),
{
    let above = match min {
        Some(low) => value >= low,
        None => true,
    };
    let below = match max {
        Some(high) => value <= high,
        None => true,
    };
    above && below
}

/// Whether a list holds an entity.
pub fn holds(entities: &Vec<EntityId>, entity: EntityId) -> (found: bool)
    ensures
        found == entities@.contains(entity),
{
    let mut next: usize = 0;
    while next < entities.len()
        invariant
            next <= entities@.len(),
            forall|i: int| 0 <= i < next ==> entities@[i] != entity,
        decreases entities@.len() - next,
    {
        if entities[next] == entity {
            return true;
        }
        next = next + 1;
    }
    false
}

} // verus!
