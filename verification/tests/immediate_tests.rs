#![allow(unused_imports)]
#![allow(unused_variables)]
#![allow(unused_mut)]
#![allow(dead_code)]

use rust_ccg::base::action::{Action, ActionRecord, PointerList};
use rust_ccg::base::config::{
    GameConfig, PhaseId, TemplateConfig, TemplateId, ZoneConfig, ZoneId, ZoneVisibility,
};
use rust_ccg::base::entity::EntityId;
use rust_ccg::base::player::{PlayerId, PlayerMap};
use rust_ccg::base::rng::{GameRng, GameRngState};
use rust_ccg::base::state::{GameState, PublicState};
use rust_ccg::cards::attributes::{AttributeKey, AttributeValue, Attributes};
use rust_ccg::cards::definition::{CardDefinition, CardId, CardTypeId};
use rust_ccg::cards::instance::CardInstance;
use rust_ccg::cards::registry::CardRegistry;
use rust_ccg::effects::effect::{Effect, EffectBatch, EffectEntry};
use rust_ccg::effects::resolver::{EffectResolver, ResolveResult, ResolverContext, SharedZones};
use rust_ccg::effects::targeting::{
    TargetCount, TargetFilter, TargetSelector, TargetSpec, TargetType,
};
use rust_ccg::mcts::node::{Edge, MCTSNode, NodeId, RewardModel};
use rust_ccg::mcts::policy::{
    OpponentPolicy, RandomSimulation, SelectionPolicy, SimulationPolicy, UniformOpponent,
};
use rust_ccg::mcts::search::{MCTSSearch, SearchLimits};
use rust_ccg::mcts::stats::SearchStats;
use rust_ccg::mcts::tree::{MCTSTree, TreeStats};
use rust_ccg::rules::engine::{ActionEnumeration, GameResult, RulesEngine};
use rust_ccg::training::self_play::{MoveChooser, SelfPlayWorker};
use rust_ccg::training::trajectory::{sample_indices, ExperienceBuffer, Recorded, Trajectory};
use rust_ccg::stack::immediate::ImmediateResolution;
use rust_ccg::stack::priority::{PriorityStack, StackEntry, StackEntryId, StackSource};
use rust_ccg::stack::{ResolutionStatus, ResolutionSystem};
use rust_ccg::triggers::condition::{
    ConditionContext, ConditionEvaluator, CustomConditions, TriggerCondition,
};
use rust_ccg::triggers::event::{EventTypeConfig, EventTypeId, GameEvent};
use rust_ccg::triggers::registry::{
    Trigger, TriggerId, TriggerRegistry, TriggerTiming, TriggeredEffect,
};
use rust_ccg::zones::manager::{ZoneManager, ZonePosition};

/// A resolver context made of closures.
struct ClosureContext<'a> {
    deck: Box<dyn Fn(PlayerId) -> ZoneId + 'a>,
    hand: Box<dyn Fn(PlayerId) -> ZoneId + 'a>,
    condition: Box<dyn Fn(&str, &GameState) -> bool + 'a>,
}

impl<'a> ClosureContext<'a> {
    fn new(
        deck: impl Fn(PlayerId) -> ZoneId + 'a,
        hand: impl Fn(PlayerId) -> ZoneId + 'a,
    ) -> Self {
        ClosureContext {
            deck: Box::new(deck),
            hand: Box::new(hand),
            condition: Box::new(|_, _| false),
        }
    }

    fn with_condition_eval(mut self, eval: impl Fn(&str, &GameState) -> bool + 'a) -> Self {
        self.condition = Box::new(eval);
        self
    }
}

impl<'a> ResolverContext for ClosureContext<'a> {
    fn get_deck_zone(&self, player: PlayerId) -> ZoneId {
        (self.deck)(player)
    }

    fn get_hand_zone(&self, player: PlayerId) -> ZoneId {
        (self.hand)(player)
    }

    fn eval_condition(&self, key: &str, state: &GameState) -> bool {
        (self.condition)(key, state)
    }
}

/// Custom conditions made of a closure.
struct ClosureConditions<F>(F);

impl<F: Fn(&str, &GameEvent, &GameState) -> bool> CustomConditions for ClosureConditions<F> {
    fn eval(&self, key: &str, event: &GameEvent, state: &GameState) -> bool {
        (self.0)(key, event, state)
    }
}



#[test]
fn test_immediate_new() {
    let resolver = ImmediateResolution::new();
    assert!(resolver.is_complete());
    assert_eq!(resolver.pending_count(), 0);
    assert_eq!(resolver.priority_player(), None);
}

#[test]
fn immediate_test_queue_action() {
    let mut resolver = ImmediateResolution::new();

    let mut batch = EffectBatch::new();
    batch.add_player(Effect::damage(3), PlayerId::new(1));

    let action = Action::new(TemplateId::new(1));
    resolver.queue_action(action, batch, PlayerId::new(0));

    assert_eq!(resolver.pending_count(), 1);
    assert!(!resolver.is_complete());
}

#[test]
fn test_queue_empty_batch() {
    let mut resolver = ImmediateResolution::new();

    let batch = EffectBatch::new(); // Empty
    let action = Action::new(TemplateId::new(1));
    resolver.queue_action(action, batch, PlayerId::new(0));

    // Empty batches are not queued
    assert_eq!(resolver.pending_count(), 0);
    assert!(resolver.is_complete());
}

#[test]
fn test_process_resolves_all() {
    let mut resolver = ImmediateResolution::new();

    // Queue multiple effects
    for i in 0..3 {
        let mut batch = EffectBatch::new();
        batch.add_player(Effect::damage(i + 1), PlayerId::new(1));
        let action = Action::new(TemplateId::new(1));
        resolver.queue_action(action, batch, PlayerId::new(0));
    }

    assert_eq!(resolver.pending_count(), 3);

    let mut state = GameState::new(2, 42);
    let context = ClosureContext::new(|_| ZoneId::new(0), |_| ZoneId::new(1));
    let status = resolver.process(&mut state, &context);

    assert_eq!(status, ResolutionStatus::Complete);
    assert!(resolver.is_complete());
    assert_eq!(resolver.pending_count(), 0);
}

#[test]
fn immediate_test_clear() {
    let mut resolver = ImmediateResolution::new();

    let mut batch = EffectBatch::new();
    batch.add_player(Effect::damage(3), PlayerId::new(1));
    let action = Action::new(TemplateId::new(1));
    resolver.queue_action(action, batch, PlayerId::new(0));

    assert!(!resolver.is_complete());

    resolver.clear();

    assert!(resolver.is_complete());
    assert_eq!(resolver.pending_count(), 0);
}

#[test]
fn test_damage_actually_applied() {
    let mut resolver = ImmediateResolution::new();
    let mut state = GameState::new(2, 42);

    // Set initial life
    state.public.set_player_state(PlayerId::new(1), "life", 20);

    // Queue damage
    let mut batch = EffectBatch::new();
    batch.add_player(Effect::damage(5), PlayerId::new(1));
    let action = Action::new(TemplateId::new(1));
    resolver.queue_action(action, batch, PlayerId::new(0));

    let context = ClosureContext::new(|_| ZoneId::new(0), |_| ZoneId::new(1));
    resolver.process(&mut state, &context);

    // Damage should be applied (life reduced by 5)
    let life = state.public.get_player_state(PlayerId::new(1), "life", 0);
    assert_eq!(life, 15);
}
