#![allow(unused_imports)]
#![allow(unused_variables)]
#![allow(unused_mut)]
#![allow(dead_code)]

use rust_ccg::base::action::{Action, ActionRecord, PointerList};
use rust_ccg::base::config::{
    GameConfig, PhaseId, TemplateConfig, TemplateId, ZoneConfig, ZoneId, ZoneVisibility,
};
use rust_ccg::base::entity::EntityId;
use rust_ccg::base::player::{PlayerId, PlayerMap};
use rust_ccg::base::rng::{GameRng, GameRngState};
use rust_ccg::base::state::{GameState, PublicState};
use rust_ccg::cards::attributes::{AttributeKey, AttributeValue, Attributes};
use rust_ccg::cards::definition::{CardDefinition, CardId, CardTypeId};
use rust_ccg::cards::instance::CardInstance;
use rust_ccg::cards::registry::CardRegistry;
use rust_ccg::effects::effect::{Effect, EffectBatch, EffectEntry};
use rust_ccg::effects::resolver::{EffectResolver, ResolveResult, ResolverContext, SharedZones};
use rust_ccg::effects::targeting::{
    TargetCount, TargetFilter, TargetSelector, TargetSpec, TargetType,
};
use rust_ccg::mcts::node::{Edge, MCTSNode, NodeId, RewardModel};
use rust_ccg::mcts::policy::{
    OpponentPolicy, RandomSimulation, SelectionPolicy, SimulationPolicy, UniformOpponent,
};
use rust_ccg::mcts::search::{MCTSSearch, SearchLimits};
use rust_ccg::mcts::stats::SearchStats;
use rust_ccg::mcts::tree::{MCTSTree, TreeStats};
use rust_ccg::rules::engine::{ActionEnumeration, GameResult, RulesEngine};
use rust_ccg::training::self_play::{MoveChooser, SelfPlayWorker};
use rust_ccg::training::trajectory::{sample_indices, ExperienceBuffer, Recorded, Trajectory};
use rust_ccg::stack::immediate::ImmediateResolution;
use rust_ccg::stack::priority::{PriorityStack, StackEntry, StackEntryId, StackSource};
use rust_ccg::stack::{ResolutionStatus, ResolutionSystem};
use rust_ccg::triggers::condition::{
    ConditionContext, ConditionEvaluator, CustomConditions, TriggerCondition,
};
use rust_ccg::triggers::event::{EventTypeConfig, EventTypeId, GameEvent};
use rust_ccg::triggers::registry::{
    Trigger, TriggerId, TriggerRegistry, TriggerTiming, TriggeredEffect,
};
use rust_ccg::zones::manager::{ZoneManager, ZonePosition};

/// A resolver context made of closures.
struct ClosureContext<'a> {
    deck: Box<dyn Fn(PlayerId) -> ZoneId + 'a>,
    hand: Box<dyn Fn(PlayerId) -> ZoneId + 'a>,
    condition: Box<dyn Fn(&str, &GameState) -> bool + 'a>,
}

impl<'a> ClosureContext<'a> {
    fn new(
        deck: impl Fn(PlayerId) -> ZoneId + 'a,
        hand: impl Fn(PlayerId) -> ZoneId + 'a,
    ) -> Self {
        ClosureContext {
            deck: Box::new(deck),
            hand: Box::new(hand),
            condition: Box::new(|_, _| false),
        }
    }

    fn with_condition_eval(mut self, eval: impl Fn(&str, &GameState) -> bool + 'a) -> Self {
        self.condition = Box::new(eval);
        self
    }
}

impl<'a> ResolverContext for ClosureContext<'a> {
    fn get_deck_zone(&self, player: PlayerId) -> ZoneId {
        (self.deck)(player)
    }

    fn get_hand_zone(&self, player: PlayerId) -> ZoneId {
        (self.hand)(player)
    }

    fn eval_condition(&self, key: &str, state: &GameState) -> bool {
        (self.condition)(key, state)
    }
}

/// Custom conditions made of a closure.
struct ClosureConditions<F>(F);

impl<F: Fn(&str, &GameEvent, &GameState) -> bool> CustomConditions for ClosureConditions<F> {
    fn eval(&self, key: &str, event: &GameEvent, state: &GameState) -> bool {
        (self.0)(key, event, state)
    }
}


#[test]
fn test_player_id_basics() {
    let p0 = PlayerId::new(0);
    let p1 = PlayerId::new(1);

    assert_eq!(p0.index(), 0);
    assert_eq!(p1.index(), 1);
    assert_eq!(p0.to_string(), "Player 0");
}

#[test]
fn test_player_id_all() {
    let players: Vec<_> = PlayerId::all(4);
    assert_eq!(players.len(), 4);
    assert_eq!(players[0], PlayerId::new(0));
    assert_eq!(players[1], PlayerId::new(1));
    assert_eq!(players[2], PlayerId::new(2));
    assert_eq!(players[3], PlayerId::new(3));
}

#[test]
fn test_player_map_new() {
    let map: PlayerMap<i32> = PlayerMap::new(4, |p| p.index() as i32 * 10);

    assert_eq!(map[PlayerId::new(0)], 0);
    assert_eq!(map[PlayerId::new(1)], 10);
    assert_eq!(map[PlayerId::new(2)], 20);
    assert_eq!(map[PlayerId::new(3)], 30);
}

#[test]
fn test_player_map_with_value() {
    let map: PlayerMap<i32> = PlayerMap::with_value(3, 20);

    assert_eq!(map[PlayerId::new(0)], 20);
    assert_eq!(map[PlayerId::new(1)], 20);
    assert_eq!(map[PlayerId::new(2)], 20);
}

#[test]
fn test_player_map_with_default() {
    let map: PlayerMap<Vec<i32>> = PlayerMap::with_default(2);

    assert!(map[PlayerId::new(0)].is_empty());
    assert!(map[PlayerId::new(1)].is_empty());
}

#[test]
fn test_player_map_mutation() {
    let mut map: PlayerMap<i32> = PlayerMap::with_value(2, 0);

    *map.get_mut(PlayerId::new(0)) = 10;
    *map.get_mut(PlayerId::new(1)) = 20;

    assert_eq!(map[PlayerId::new(0)], 10);
    assert_eq!(map[PlayerId::new(1)], 20);
}

#[test]
fn test_player_map_iter() {
    let map: PlayerMap<i32> = PlayerMap::new(3, |p| p.index() as i32);

    let pairs: Vec<_> = map.iter().into_iter().collect();
    assert_eq!(pairs.len(), 3);
    assert_eq!(pairs[0], (PlayerId::new(0), &0));
    assert_eq!(pairs[1], (PlayerId::new(1), &1));
    assert_eq!(pairs[2], (PlayerId::new(2), &2));
}

#[test]
fn test_player_map_player_count() {
    let map: PlayerMap<i32> = PlayerMap::with_value(5, 0);
    assert_eq!(map.player_count(), 5);
}
