//! Conditions of triggers: predicates over an event and the state.
//!
//! Most conditions are decided by the event and the state alone. A custom
//! condition is decided by the game; what the engine says of a condition
//! that contains one is what holds whatever the game answers.

use super::event::{EventTypeId, GameEvent, GameEventView};
use crate::base::config::ZoneId;
use crate::base::entity::EntityId;
use crate::base::player::PlayerId;
use crate::base::state::{GameState, GameStateView};
use vstd::prelude::*;

verus! {

/// A condition for a trigger to fire.
#[derive(Debug, PartialEq, Eq)]
pub enum TriggerCondition {
    /// The event is of a kind.
    EventType(EventTypeId),
    /// The event is of one of several kinds.
    AnyEventType(Vec<EventTypeId>),
    /// The event has this source.
    SourceIs(EntityId),
    /// The event has this target.
    TargetIs(EntityId),
    /// The source is a card that a player controls.
    SourceControlledBy(PlayerId),
    /// The target is a card that a player controls.
    TargetControlledBy(PlayerId),
    /// The event concerns a player.
    ForPlayer(PlayerId),
    /// The source is in a zone.
    SourceInZone(ZoneId),
    /// The target is in a zone.
    TargetInZone(ZoneId),
    /// The value at a position is at least `min`; no value is not.
    ValueAtLeast { index: usize, min: i64 },
    /// The value at a position is at most `max`; no value is not.
    ValueAtMost { index: usize, max: i64 },
    /// The value at a position, or 0, lies between `min` and `max`.
    ValueInRange { index: usize, min: i64, max: i64 },
    /// The event carries a tag.
    HasTag(String),
    /// The event does not carry a tag.
    NotTag(String),
    /// Every one of the conditions holds.
    All(Vec<TriggerCondition>),
    /// One of the conditions holds.
    Any(Vec<TriggerCondition>),
    /// The condition does not hold.
    Not(Box<TriggerCondition>),
    /// Holds.
    Always,
    /// Does not hold.
    Never,
    /// A condition of the game's own; it does not hold where the game
    /// gives no evaluator.
    Custom(String),
}

impl TriggerCondition {
    /// The event is of a kind.
    pub fn event(event_type: EventTypeId) -> (condition: Self)
        ensures
            condition == TriggerCondition::EventType(event_type),
    {
        TriggerCondition::EventType(event_type)
    }

    /// The event concerns a player.
    pub fn for_player(player: PlayerId) -> (condition: Self)
        ensures
            condition == TriggerCondition::ForPlayer(player),
    {
        TriggerCondition::ForPlayer(player)
    }

    /// The source is a card that a player controls.
    pub fn source_controlled_by(player: PlayerId) -> (condition: Self)
        ensures
            condition == TriggerCondition::SourceControlledBy(player),
    {
        TriggerCondition::SourceControlledBy(player)
    }

    /// The target is a card that a player controls.
    pub fn target_controlled_by(player: PlayerId) -> (condition: Self)
        ensures
            condition == TriggerCondition::TargetControlledBy(player),
    {
        TriggerCondition::TargetControlledBy(player)
    }

    /// The value at a position is at least `min`.
    pub fn value_at_least(index: usize, min: i64) -> (condition: Self)
        ensures
            condition == (TriggerCondition::ValueAtLeast { index, min }),
    {
        TriggerCondition::ValueAtLeast { index, min }
    }

    /// Every one of the conditions holds.
    pub fn all(conditions: Vec<TriggerCondition>) -> (condition: Self)
        ensures
            condition == TriggerCondition::All(conditions),
    {
        TriggerCondition::All(conditions)
    }

    /// One of the conditions holds.
    pub fn any(conditions: Vec<TriggerCondition>) -> (condition: Self)
        ensures
            condition == TriggerCondition::Any(conditions),
    {
        TriggerCondition::Any(conditions)
    }

    /// The condition does not hold.
    pub fn negate(self) -> (condition: Self)
        ensures
            condition == TriggerCondition::Not(Box::new(self)),
    {
        TriggerCondition::Not(Box::new(self))
    }

    /// Both hold. A conjunction takes the other condition in at its end.
    pub fn and(self, other: TriggerCondition) -> (condition: Self)
        ensures
            match self {
                TriggerCondition::All(conditions) => condition matches TriggerCondition::All(made)
                    && made@ == conditions@.push(other),
                _ => condition matches TriggerCondition::All(made) && made@ == seq![self, other],
            },
    {
        match self {
            TriggerCondition::All(conditions) => {
                let mut conditions = conditions;
                conditions.push(other);
                TriggerCondition::All(conditions)
            },
            first => {
                let mut conditions: Vec<TriggerCondition> = Vec::new();
                conditions.push(first);
                conditions.push(other);
                assert(conditions@ =~= seq![first, other]);
                TriggerCondition::All(conditions)
            },
        }
    }

    /// One of the two holds. A disjunction takes the other condition in at
    /// its end.
    pub fn or(self, other: TriggerCondition) -> (condition: Self)
        ensures
            match self {
                TriggerCondition::Any(conditions) => condition matches TriggerCondition::Any(made)
                    && made@ == conditions@.push(other),
                _ => condition matches TriggerCondition::Any(made) && made@ == seq![self, other],
            },
    {
        match self {
            TriggerCondition::Any(conditions) => {
                let mut conditions = conditions;
                conditions.push(other);
                TriggerCondition::Any(conditions)
            },
            first => {
                let mut conditions: Vec<TriggerCondition> = Vec::new();
                conditions.push(first);
                conditions.push(other);
                assert(conditions@ =~= seq![first, other]);
                TriggerCondition::Any(conditions)
            },
        }
    }
}

/// Whether two conditions read the same, part by part: text by its
/// characters, a list item by item.
pub open spec fn alike(first: TriggerCondition, second: TriggerCondition) -> bool
    decreases first,
{
    match first {
        TriggerCondition::EventType(a) => second matches TriggerCondition::EventType(b) && a == b,
        TriggerCondition::AnyEventType(a) => second matches TriggerCondition::AnyEventType(b)
            && a@ == b@,
        TriggerCondition::SourceIs(a) => second matches TriggerCondition::SourceIs(b) && a == b,
        TriggerCondition::TargetIs(a) => second matches TriggerCondition::TargetIs(b) && a == b,
        TriggerCondition::SourceControlledBy(a) => second matches TriggerCondition::SourceControlledBy(
            b,
        ) && a == b,
        TriggerCondition::TargetControlledBy(a) => second matches TriggerCondition::TargetControlledBy(
            b,
        ) && a == b,
        TriggerCondition::ForPlayer(a) => second matches TriggerCondition::ForPlayer(b) && a == b,
        TriggerCondition::SourceInZone(a) => second matches TriggerCondition::SourceInZone(b) && a
            == b,
        TriggerCondition::TargetInZone(a) => second matches TriggerCondition::TargetInZone(b) && a
            == b,
        TriggerCondition::ValueAtLeast { index, min } => second
            == (TriggerCondition::ValueAtLeast { index, min }),
        TriggerCondition::ValueAtMost { index, max } => second
            == (TriggerCondition::ValueAtMost { index, max }),
        TriggerCondition::ValueInRange { index, min, max } => second
            == (TriggerCondition::ValueInRange { index, min, max }),
        TriggerCondition::HasTag(a) => second matches TriggerCondition::HasTag(b) && a@ == b@,
        TriggerCondition::NotTag(a) => second matches TriggerCondition::NotTag(b) && a@ == b@,
        TriggerCondition::All(a) => second matches TriggerCondition::All(b) && a@.len() == b@.len()
            && forall|i: int| 0 <= i < a@.len() ==> alike(#[trigger] a@[i], b@[i]),
        TriggerCondition::Any(a) => second matches TriggerCondition::Any(b) && a@.len() == b@.len()
            && forall|i: int| 0 <= i < a@.len() ==> alike(#[trigger] a@[i], b@[i]),
        TriggerCondition::Not(a) => second matches TriggerCondition::Not(b) && alike(*a, *b),
        TriggerCondition::Always => second is Always,
        TriggerCondition::Never => second is Never,
        TriggerCondition::Custom(a) => second matches TriggerCondition::Custom(b) && a@ == b@,
    }
}

/// Conditions that read the same come to the same for every event in
/// every state.
pub proof fn lemma_alike_decided(
    first: TriggerCondition,
    second: TriggerCondition,
    event: GameEventView,
    state: GameStateView,
    has_custom: bool,
)
    requires
        alike(first, second),
    ensures
        decided(first, event, state, has_custom) == decided(second, event, state, has_custom),
    decreases first,
{
    match first {
        TriggerCondition::All(a) => {
            let b = second->All_0;
            assert forall|i: int| 0 <= i < a@.len() implies decided(
                #[trigger] a@[i],
                event,
                state,
                has_custom,
            ) == decided(b@[i], event, state, has_custom) by {
                lemma_alike_decided(a@[i], b@[i], event, state, has_custom);
            }
            assert forall|i: int| 0 <= i < b@.len() implies decided(
                #[trigger] b@[i],
                event,
                state,
                has_custom,
            ) == decided(a@[i], event, state, has_custom) by {
                lemma_alike_decided(a@[i], b@[i], event, state, has_custom);
            }
        },
        TriggerCondition::Any(a) => {
            let b = second->Any_0;
            assert forall|i: int| 0 <= i < a@.len() implies decided(
                #[trigger] a@[i],
                event,
                state,
                has_custom,
            ) == decided(b@[i], event, state, has_custom) by {
                lemma_alike_decided(a@[i], b@[i], event, state, has_custom);
            }
            assert forall|i: int| 0 <= i < b@.len() implies decided(
                #[trigger] b@[i],
                event,
                state,
                has_custom,
            ) == decided(a@[i], event, state, has_custom) by {
                lemma_alike_decided(a@[i], b@[i], event, state, has_custom);
            }
        },
        TriggerCondition::Not(a) => {
            let b = second->Not_0;
            lemma_alike_decided(*a, *b, event, state, has_custom);
        },
        _ => {},
    }
}

impl Clone for TriggerCondition {
    /// A condition that reads the same.
    #[verifier::loop_isolation(false)]
    fn clone(&self) -> (copy: Self)
        ensures
            alike(*self, copy),
        decreases *self,
    {
        broadcast use vstd::std_specs::vec::axiom_vec_index_decreases;

        match self {
            TriggerCondition::EventType(expected) => TriggerCondition::EventType(*expected),
            TriggerCondition::AnyEventType(types) => TriggerCondition::AnyEventType(
                crate::base::state::copy_vec(types),
            ),
            TriggerCondition::SourceIs(entity) => TriggerCondition::SourceIs(*entity),
            TriggerCondition::TargetIs(entity) => TriggerCondition::TargetIs(*entity),
            TriggerCondition::SourceControlledBy(player) => TriggerCondition::SourceControlledBy(
                *player,
            ),
            TriggerCondition::TargetControlledBy(player) => TriggerCondition::TargetControlledBy(
                *player,
            ),
            TriggerCondition::ForPlayer(player) => TriggerCondition::ForPlayer(*player),
            TriggerCondition::SourceInZone(zone) => TriggerCondition::SourceInZone(*zone),
            TriggerCondition::TargetInZone(zone) => TriggerCondition::TargetInZone(*zone),
            TriggerCondition::ValueAtLeast { index, min } => TriggerCondition::ValueAtLeast {
                index: *index,
                min: *min,
            },
            TriggerCondition::ValueAtMost { index, max } => TriggerCondition::ValueAtMost {
                index: *index,
                max: *max,
            },
            TriggerCondition::ValueInRange { index, min, max } => TriggerCondition::ValueInRange {
                index: *index,
                min: *min,
                max: *max,
            },
            TriggerCondition::HasTag(tag) => TriggerCondition::HasTag(tag.clone()),
            TriggerCondition::NotTag(tag) => TriggerCondition::NotTag(tag.clone()),
            TriggerCondition::All(conditions) => {
                let mut copies: Vec<TriggerCondition> = Vec::new();
                let mut next: usize = 0;
                while next < conditions.len()
                    invariant
                        next <= conditions@.len(),
                        copies@.len() == next,
                        forall|i: int| 0 <= i < next ==> alike(#[trigger] conditions@[i], copies@[i]),
                    decreases conditions@.len() - next,
                {
                    copies.push(conditions[next].clone());
                    next = next + 1;
                }
                TriggerCondition::All(copies)
            },
            TriggerCondition::Any(conditions) => {
                let mut copies: Vec<TriggerCondition> = Vec::new();
                let mut next: usize = 0;
                while next < conditions.len()
                    invariant
                        next <= conditions@.len(),
                        copies@.len() == next,
                        forall|i: int| 0 <= i < next ==> alike(#[trigger] conditions@[i], copies@[i]),
                    decreases conditions@.len() - next,
                {
                    copies.push(conditions[next].clone());
                    next = next + 1;
                }
                TriggerCondition::Any(copies)
            },
            TriggerCondition::Not(inner) => TriggerCondition::Not(Box::new((**inner).clone())),
            TriggerCondition::Always => TriggerCondition::Always,
            TriggerCondition::Never => TriggerCondition::Never,
            TriggerCondition::Custom(key) => TriggerCondition::Custom(key.clone()),
        }
    }
}

/// The custom conditions of a game.
pub trait CustomConditions {
    /// Whether the condition named `key` holds for an event in a state.
    fn eval(&self, key: &str, event: &GameEvent, state: &GameState) -> bool;
}

/// What a condition is evaluated in.
pub struct ConditionContext<'a> {
    /// The event that happened.
    pub event: &'a GameEvent,
    /// The state it happened in.
    pub state: &'a GameState,
    /// The game's evaluator of custom conditions, if it has one.
    pub eval_custom: Option<&'a dyn CustomConditions>,
}

impl<'a> ConditionContext<'a> {
    /// A context without an evaluator of custom conditions.
    pub fn new(event: &'a GameEvent, state: &'a GameState) -> (context: Self)
        ensures
            context.event == event,
            context.state == state,
            context.eval_custom is None,
    {
        ConditionContext { event, state, eval_custom: None }
    }

    /// The same context with an evaluator of custom conditions.
    pub fn with_custom_eval(self, eval: &'a dyn CustomConditions) -> (context: Self)
        ensures
            context.event == self.event,
            context.state == self.state,
            context.eval_custom is Some,
    {
        ConditionContext { event: self.event, state: self.state, eval_custom: Some(eval) }
    }
}

/// Whether a card instance exists for an entity and a player controls it.
pub open spec fn controlled_by(state: GameStateView, entity: Option<EntityId>, player: PlayerId) -> bool {
    entity matches Some(card) && state.card(card) matches Some(instance) && instance.controller
        == Some(player)
}

/// Whether an entity is given and in a zone.
pub open spec fn located_in(state: GameStateView, entity: Option<EntityId>, zone: ZoneId) -> bool {
    entity matches Some(card) && state.zones.zone_of(card) == Some(zone)
}

/// What a condition comes to for an event in a state, as far as the event
/// and the state decide it: `None` where it hangs on what the game says of
/// a custom condition. Without an evaluator every condition is decided.
pub open spec fn decided(
    condition: TriggerCondition,
    event: GameEventView,
    state: GameStateView,
    has_custom: bool,
) -> Option<bool>
    decreases condition,
{
    match condition {
        TriggerCondition::EventType(expected) => Some(event.event_type == expected),
        TriggerCondition::AnyEventType(types) => Some(types@.contains(event.event_type)),
        TriggerCondition::SourceIs(entity) => Some(event.source == Some(entity)),
        TriggerCondition::TargetIs(entity) => Some(event.target == Some(entity)),
        TriggerCondition::SourceControlledBy(player) => Some(
            controlled_by(state, event.source, player),
        ),
        TriggerCondition::TargetControlledBy(player) => Some(
            controlled_by(state, event.target, player),
        ),
        TriggerCondition::ForPlayer(player) => Some(event.player == Some(player)),
        TriggerCondition::SourceInZone(zone) => Some(located_in(state, event.source, zone)),
        TriggerCondition::TargetInZone(zone) => Some(located_in(state, event.target, zone)),
        TriggerCondition::ValueAtLeast { index, min } => Some(
            event.value(index as int, i64::MIN) >= min,
        ),
        TriggerCondition::ValueAtMost { index, max } => Some(
            event.value(index as int, i64::MAX) <= max,
        ),
        TriggerCondition::ValueInRange { index, min, max } => Some(
            min <= event.value(index as int, 0) <= max,
        ),
        TriggerCondition::HasTag(tag) => Some(event.has_tag(tag@)),
        TriggerCondition::NotTag(tag) => Some(!event.has_tag(tag@)),
        TriggerCondition::All(conditions) => if exists|i: int|
            0 <= i < conditions@.len() && decided(#[trigger] conditions@[i], event, state, has_custom)
                == Some(false) {
            Some(false)
        } else if forall|i: int|
            0 <= i < conditions@.len() ==> decided(
                #[trigger] conditions@[i],
                event,
                state,
                has_custom,
            ) == Some(true) {
            Some(true)
        } else {
            None
        },
        TriggerCondition::Any(conditions) => if exists|i: int|
            0 <= i < conditions@.len() && decided(#[trigger] conditions@[i], event, state, has_custom)
                == Some(true) {
            Some(true)
        } else if forall|i: int|
            0 <= i < conditions@.len() ==> decided(
                #[trigger] conditions@[i],
                event,
                state,
                has_custom,
            ) == Some(false) {
            Some(false)
        } else {
            None
        },
        TriggerCondition::Not(inner) => match decided(*inner, event, state, has_custom) {
            Some(value) => Some(!value),
            None => None,
        },
        TriggerCondition::Always => Some(true),
        TriggerCondition::Never => Some(false),
        TriggerCondition::Custom(_) => if has_custom {
            None
        } else {
            Some(false)
        },
    }
}

/// Whether a list of event types holds one.
fn holds_type(types: &Vec<EventTypeId>, wanted: EventTypeId) -> (found: bool)
    ensures
        found == types@.contains(wanted),
{
    let mut next: usize = 0;
    while next < types.len()
        invariant
            next <= types@.len(),
            forall|i: int| 0 <= i < next ==> types@[i] != wanted,
        decreases types@.len() - next,
    {
        if types[next] == wanted {
            return true;
        }
        next = next + 1;
    }
    false
}

/// Whether a card instance exists for an entity and a player controls it.
fn is_controlled_by(state: &GameState, entity: Option<EntityId>, player: PlayerId) -> (controlled:
    bool)
    ensures
        controlled == controlled_by(state@, entity, player),
{
    match entity {
        Some(card) => match state.get_card(card) {
            Some(instance) => match instance.controller {
                Some(controller) => controller == player,
                None => false,
            },
            None => false,
        },
        None => false,
    }
}

/// Whether an entity is given and in a zone.
fn is_located_in(state: &GameState, entity: Option<EntityId>, zone: ZoneId) -> (located: bool)
    ensures
        located == located_in(state@, entity, zone),
{
    match entity {
        Some(card) => state.zones.is_in_zone(card, zone),
        None => false,
    }
}

/// Whether a game's evaluator can say `holds` of the custom condition
/// named `key`, for an event in a state.
pub open spec fn says<V: CustomConditions + ?Sized>(
    evaluator: &V,
    key: Seq<char>,
    event: &GameEvent,
    state: &GameState,
    holds: bool,
) -> bool {
    exists|name: &str| #[trigger]
        call_ensures(V::eval, (evaluator, name, event, state), holds) && name@ == key
}

/// Whether a condition can come to `holds` for the event and the state of
/// a context. A custom condition comes to what the game's evaluator says
/// of it, and does not hold where there is none. Every one of several
/// holds where each comes to hold, and does not where one of them comes
/// not to; one of several the other way round. Every other condition
/// comes to what the event and the state decide.
pub open spec fn comes_to(condition: TriggerCondition, ctx: ConditionContext, holds: bool) -> bool
    decreases condition,
{
    match condition {
        TriggerCondition::Custom(key) => match ctx.eval_custom {
            Some(evaluator) => says(evaluator, key@, ctx.event, ctx.state, holds),
            None => !holds,
        },
        TriggerCondition::All(conditions) => if holds {
            forall|i: int|
                0 <= i < conditions@.len() ==> comes_to(#[trigger] conditions@[i], ctx, true)
        } else {
            exists|i: int|
                0 <= i < conditions@.len() && comes_to(#[trigger] conditions@[i], ctx, false)
        },
        TriggerCondition::Any(conditions) => if holds {
            exists|i: int|
                0 <= i < conditions@.len() && comes_to(#[trigger] conditions@[i], ctx, true)
        } else {
            forall|i: int|
                0 <= i < conditions@.len() ==> comes_to(#[trigger] conditions@[i], ctx, false)
        },
        TriggerCondition::Not(inner) => comes_to(*inner, ctx, !holds),
        _ => decided(condition, ctx.event@, ctx.state@, false) == Some(holds),
    }
}

/// The evaluator of conditions.
pub struct ConditionEvaluator;

impl ConditionEvaluator {
    /// Whether a condition holds for the event and the state of a context.
    /// The result is what the event and the state decide, where they
    /// decide; a custom condition is as the game's evaluator says, as
    /// `comes_to` has it.
    #[verifier::loop_isolation(false)]
    pub fn evaluate(condition: &TriggerCondition, ctx: &ConditionContext) -> (holds: bool)
        ensures
            decided(*condition, ctx.event@, ctx.state@, ctx.eval_custom is Some) matches Some(
                value,
            ) ==> holds == value,
            comes_to(*condition, *ctx, holds),
        decreases *condition,
    {
        broadcast use vstd::std_specs::vec::axiom_vec_index_decreases;

        let ghost has_custom = ctx.eval_custom is Some;
        match condition {
            TriggerCondition::EventType(expected) => ctx.event.event_type == *expected,
            TriggerCondition::AnyEventType(types) => holds_type(types, ctx.event.event_type),
            TriggerCondition::SourceIs(entity) => match ctx.event.source {
                Some(source) => source == *entity,
                None => false,
            },
            TriggerCondition::TargetIs(entity) => match ctx.event.target {
                Some(target) => target == *entity,
                None => false,
            },
            TriggerCondition::SourceControlledBy(player) => is_controlled_by(
                ctx.state,
                ctx.event.source,
                *player,
            ),
            TriggerCondition::TargetControlledBy(player) => is_controlled_by(
                ctx.state,
                ctx.event.target,
                *player,
            ),
            TriggerCondition::ForPlayer(player) => match ctx.event.player {
                Some(concerned) => concerned == *player,
                None => false,
            },
            TriggerCondition::SourceInZone(zone) => is_located_in(
                ctx.state,
                ctx.event.source,
                *zone,
            ),
            TriggerCondition::TargetInZone(zone) => is_located_in(
                ctx.state,
                ctx.event.target,
                *zone,
            ),
            TriggerCondition::ValueAtLeast { index, min } => ctx.event.value(*index, i64::MIN)
                >= *min,
            TriggerCondition::ValueAtMost { index, max } => ctx.event.value(*index, i64::MAX)
                <= *max,
            TriggerCondition::ValueInRange { index, min, max } => {
                let value = ctx.event.value(*index, 0);
                value >= *min && value <= *max
            },
            TriggerCondition::HasTag(tag) => ctx.event.has_tag(tag.as_str()),
            TriggerCondition::NotTag(tag) => !ctx.event.has_tag(tag.as_str()),
            TriggerCondition::All(conditions) => {
                let mut next: usize = 0;
                while next < conditions.len()
                    invariant
                        next <= conditions@.len(),
                        forall|i: int|
                            0 <= i < next ==> decided(
                                #[trigger] conditions@[i],
                                ctx.event@,
                                ctx.state@,
                                has_custom,
                            ) != Some(false),
                        forall|i: int|
                            0 <= i < next ==> comes_to(#[trigger] conditions@[i], *ctx, true),
                    decreases conditions@.len() - next,
                {
                    if !Self::evaluate(&conditions[next], ctx) {
                        proof {
                            let failing = conditions@[next as int];
                            assert(comes_to(conditions@[next as int], *ctx, false));
                            assert(decided(failing, ctx.event@, ctx.state@, has_custom) != Some(
                                true,
                            ));
                        }
                        return false;
                    }
                    next = next + 1;
                }
                true
            },
            TriggerCondition::Any(conditions) => {
                let mut next: usize = 0;
                while next < conditions.len()
                    invariant
                        next <= conditions@.len(),
                        forall|i: int|
                            0 <= i < next ==> decided(
                                #[trigger] conditions@[i],
                                ctx.event@,
                                ctx.state@,
                                has_custom,
                            ) != Some(true),
                        forall|i: int|
                            0 <= i < next ==> comes_to(#[trigger] conditions@[i], *ctx, false),
                    decreases conditions@.len() - next,
                {
                    if Self::evaluate(&conditions[next], ctx) {
                        proof {
                            let passing = conditions@[next as int];
                            assert(comes_to(conditions@[next as int], *ctx, true));
                            assert(decided(passing, ctx.event@, ctx.state@, has_custom) != Some(
                                false,
                            ));
                        }
                        return true;
                    }
                    next = next + 1;
                }
                false
            },
            TriggerCondition::Not(inner) => !Self::evaluate(inner, ctx),
            TriggerCondition::Always => true,
            TriggerCondition::Never => false,
            TriggerCondition::Custom(key) => match ctx.eval_custom {
                Some(eval) => eval.eval(key.as_str(), ctx.event, ctx.state),
                None => false,
            },
        }
    }
}

} // verus!
