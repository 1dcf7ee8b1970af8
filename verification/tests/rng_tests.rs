#![allow(unused_imports)]
#![allow(unused_variables)]
#![allow(unused_mut)]
#![allow(dead_code)]

use rust_ccg::base::action::{Action, ActionRecord, PointerList};
use rust_ccg::base::config::{
    GameConfig, PhaseId, TemplateConfig, TemplateId, ZoneConfig, ZoneId, ZoneVisibility,
};
use rust_ccg::base::entity::EntityId;
use rust_ccg::base::player::{PlayerId, PlayerMap};
use rust_ccg::base::rng::{GameRng, GameRngState};
use rust_ccg::base::state::{GameState, PublicState};
use rust_ccg::cards::attributes::{AttributeKey, AttributeValue, Attributes};
use rust_ccg::cards::definition::{CardDefinition, CardId, CardTypeId};
use rust_ccg::cards::instance::CardInstance;
use rust_ccg::cards::registry::CardRegistry;
use rust_ccg::effects::effect::{Effect, EffectBatch, EffectEntry};
use rust_ccg::effects::resolver::{EffectResolver, ResolveResult, ResolverContext, SharedZones};
use rust_ccg::effects::targeting::{
    TargetCount, TargetFilter, TargetSelector, TargetSpec, TargetType,
};
use rust_ccg::mcts::node::{Edge, MCTSNode, NodeId, RewardModel};
use rust_ccg::mcts::policy::{
    OpponentPolicy, RandomSimulation, SelectionPolicy, SimulationPolicy, UniformOpponent,
};
use rust_ccg::mcts::search::{MCTSSearch, SearchLimits};
use rust_ccg::mcts::stats::SearchStats;
use rust_ccg::mcts::tree::{MCTSTree, TreeStats};
use rust_ccg::rules::engine::{ActionEnumeration, GameResult, RulesEngine};
use rust_ccg::training::self_play::{MoveChooser, SelfPlayWorker};
use rust_ccg::training::trajectory::{sample_indices, ExperienceBuffer, Recorded, Trajectory};
use rust_ccg::stack::immediate::ImmediateResolution;
use rust_ccg::stack::priority::{PriorityStack, StackEntry, StackEntryId, StackSource};
use rust_ccg::stack::{ResolutionStatus, ResolutionSystem};
use rust_ccg::triggers::condition::{
    ConditionContext, ConditionEvaluator, CustomConditions, TriggerCondition,
};
use rust_ccg::triggers::event::{EventTypeConfig, EventTypeId, GameEvent};
use rust_ccg::triggers::registry::{
    Trigger, TriggerId, TriggerRegistry, TriggerTiming, TriggeredEffect,
};
use rust_ccg::zones::manager::{ZoneManager, ZonePosition};

/// A resolver context made of closures.
struct ClosureContext<'a> {
    deck: Box<dyn Fn(PlayerId) -> ZoneId + 'a>,
    hand: Box<dyn Fn(PlayerId) -> ZoneId + 'a>,
    condition: Box<dyn Fn(&str, &GameState) -> bool + 'a>,
}

impl<'a> ClosureContext<'a> {
    fn new(
        deck: impl Fn(PlayerId) -> ZoneId + 'a,
        hand: impl Fn(PlayerId) -> ZoneId + 'a,
    ) -> Self {
        ClosureContext {
            deck: Box::new(deck),
            hand: Box::new(hand),
            condition: Box::new(|_, _| false),
        }
    }

    fn with_condition_eval(mut self, eval: impl Fn(&str, &GameState) -> bool + 'a) -> Self {
        self.condition = Box::new(eval);
        self
    }
}

impl<'a> ResolverContext for ClosureContext<'a> {
    fn get_deck_zone(&self, player: PlayerId) -> ZoneId {
        (self.deck)(player)
    }

    fn get_hand_zone(&self, player: PlayerId) -> ZoneId {
        (self.hand)(player)
    }

    fn eval_condition(&self, key: &str, state: &GameState) -> bool {
        (self.condition)(key, state)
    }
}

/// Custom conditions made of a closure.
struct ClosureConditions<F>(F);

impl<F: Fn(&str, &GameEvent, &GameState) -> bool> CustomConditions for ClosureConditions<F> {
    fn eval(&self, key: &str, event: &GameEvent, state: &GameState) -> bool {
        (self.0)(key, event, state)
    }
}


#[test]
fn test_determinism() {
    let mut rng1 = GameRng::new(42);
    let mut rng2 = GameRng::new(42);

    for _ in 0..100 {
        assert_eq!(rng1.gen_range(0..1000), rng2.gen_range(0..1000));
    }
}

#[test]
fn test_different_seeds() {
    let mut rng1 = GameRng::new(1);
    let mut rng2 = GameRng::new(2);

    let seq1: Vec<_> = (0..10).map(|_| rng1.gen_range(0..1000)).collect();
    let seq2: Vec<_> = (0..10).map(|_| rng2.gen_range(0..1000)).collect();

    assert_ne!(seq1, seq2);
}

#[test]
fn test_fork_produces_different_sequence() {
    let mut rng = GameRng::new(42);
    let mut forked = rng.fork();

    let seq1: Vec<_> = (0..10).map(|_| rng.gen_range(0..1000)).collect();
    let seq2: Vec<_> = (0..10).map(|_| forked.gen_range(0..1000)).collect();

    assert_ne!(seq1, seq2);
}

#[test]
fn test_fork_is_deterministic() {
    let mut rng1 = GameRng::new(42);
    let mut rng2 = GameRng::new(42);

    let forked1 = rng1.fork();
    let forked2 = rng2.fork();

    assert_eq!(forked1.seed(), forked2.seed());
}

#[test]
fn test_context_produces_different_sequence() {
    let rng = GameRng::new(42);
    let mut ctx1 = rng.for_context("shuffle");
    let mut ctx2 = rng.for_context("damage");

    let seq1: Vec<_> = (0..10).map(|_| ctx1.gen_range(0..1000)).collect();
    let seq2: Vec<_> = (0..10).map(|_| ctx2.gen_range(0..1000)).collect();

    assert_ne!(seq1, seq2);
}

#[test]
fn test_context_is_deterministic() {
    let rng1 = GameRng::new(42);
    let rng2 = GameRng::new(42);

    let mut ctx1 = rng1.for_context("test");
    let mut ctx2 = rng2.for_context("test");

    for _ in 0..10 {
        assert_eq!(ctx1.gen_range(0..1000), ctx2.gen_range(0..1000));
    }
}

#[test]
fn rng_test_shuffle() {
    let mut rng = GameRng::new(42);
    let mut data = vec![1, 2, 3, 4, 5, 6, 7, 8, 9, 10];
    let before = data.clone();

    rng.shuffle(&mut data);

    // Should be same elements, different order (very likely)
    assert_eq!(data.len(), before.len());
    assert_ne!(data, before);

    data.sort();
    assert_eq!(data, vec![1, 2, 3, 4, 5, 6, 7, 8, 9, 10]);
}

#[test]
fn test_choose() {
    let mut rng = GameRng::new(42);
    let items = vec![1, 2, 3, 4, 5];

    let chosen = rng.choose_one(&items);
    assert!(chosen.is_some());
    assert!(items.contains(chosen.unwrap()));

    let empty: Vec<i32> = vec![];
    assert!(rng.choose_one(&empty).is_none());
}

#[test]
fn test_state_serialization() {
    let mut rng = GameRng::new(42);

    // Advance the RNG
    for _ in 0..100 {
        rng.gen_range(0..1000);
    }

    // Save state
    let state = rng.state();

    // Continue generating
    let expected: Vec<_> = (0..10).map(|_| rng.gen_range(0..1000)).collect();

    // Restore and verify
    let mut restored = GameRng::from_state(&state);
    let actual: Vec<_> = (0..10).map(|_| restored.gen_range(0..1000)).collect();

    assert_eq!(expected, actual);
}

#[test]
fn test_state_preserves_fork_counter() {
    let mut rng = GameRng::new(42);

    // Fork a few times
    let _ = rng.fork();
    let _ = rng.fork();
    let _ = rng.fork();

    let state = rng.state();
    assert_eq!(state.fork_counter, 3);

    let restored = GameRng::from_state(&state);
    assert_eq!(restored.fork_counter(), 3);
}
