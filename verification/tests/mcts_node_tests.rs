#![allow(unused_imports)]
#![allow(unused_variables)]
#![allow(unused_mut)]
#![allow(dead_code)]

use rust_ccg::base::action::{Action, ActionRecord, PointerList};
use rust_ccg::base::config::{
    GameConfig, PhaseId, TemplateConfig, TemplateId, ZoneConfig, ZoneId, ZoneVisibility,
};
use rust_ccg::base::entity::EntityId;
use rust_ccg::base::player::{PlayerId, PlayerMap};
use rust_ccg::base::rng::{GameRng, GameRngState};
use rust_ccg::base::state::{GameState, PublicState};
use rust_ccg::cards::attributes::{AttributeKey, AttributeValue, Attributes};
use rust_ccg::cards::definition::{CardDefinition, CardId, CardTypeId};
use rust_ccg::cards::instance::CardInstance;
use rust_ccg::cards::registry::CardRegistry;
use rust_ccg::effects::effect::{Effect, EffectBatch, EffectEntry};
use rust_ccg::effects::resolver::{EffectResolver, ResolveResult, ResolverContext, SharedZones};
use rust_ccg::effects::targeting::{
    TargetCount, TargetFilter, TargetSelector, TargetSpec, TargetType,
};
use rust_ccg::mcts::node::{Edge, MCTSNode, NodeId, RewardModel};
use rust_ccg::mcts::policy::{
    OpponentPolicy, RandomSimulation, SelectionPolicy, SimulationPolicy, UniformOpponent,
};
use rust_ccg::mcts::search::{MCTSSearch, SearchLimits};
use rust_ccg::mcts::stats::SearchStats;
use rust_ccg::mcts::tree::{MCTSTree, TreeStats};
use rust_ccg::rules::engine::{ActionEnumeration, GameResult, RulesEngine};
use rust_ccg::training::self_play::{MoveChooser, SelfPlayWorker};
use rust_ccg::training::trajectory::{sample_indices, ExperienceBuffer, Recorded, Trajectory};
use rust_ccg::stack::immediate::ImmediateResolution;
use rust_ccg::stack::priority::{PriorityStack, StackEntry, StackEntryId, StackSource};
use rust_ccg::stack::{ResolutionStatus, ResolutionSystem};
use rust_ccg::triggers::condition::{
    ConditionContext, ConditionEvaluator, CustomConditions, TriggerCondition,
};
use rust_ccg::triggers::event::{EventTypeConfig, EventTypeId, GameEvent};
use rust_ccg::triggers::registry::{
    Trigger, TriggerId, TriggerRegistry, TriggerTiming, TriggeredEffect,
};
use rust_ccg::zones::manager::{ZoneManager, ZonePosition};

/// A resolver context made of closures.
struct ClosureContext<'a> {
    deck: Box<dyn Fn(PlayerId) -> ZoneId + 'a>,
    hand: Box<dyn Fn(PlayerId) -> ZoneId + 'a>,
    condition: Box<dyn Fn(&str, &GameState) -> bool + 'a>,
}

impl<'a> ClosureContext<'a> {
    fn new(
        deck: impl Fn(PlayerId) -> ZoneId + 'a,
        hand: impl Fn(PlayerId) -> ZoneId + 'a,
    ) -> Self {
        ClosureContext {
            deck: Box::new(deck),
            hand: Box::new(hand),
            condition: Box::new(|_, _| false),
        }
    }

    fn with_condition_eval(mut self, eval: impl Fn(&str, &GameState) -> bool + 'a) -> Self {
        self.condition = Box::new(eval);
        self
    }
}

impl<'a> ResolverContext for ClosureContext<'a> {
    fn get_deck_zone(&self, player: PlayerId) -> ZoneId {
        (self.deck)(player)
    }

    fn get_hand_zone(&self, player: PlayerId) -> ZoneId {
        (self.hand)(player)
    }

    fn eval_condition(&self, key: &str, state: &GameState) -> bool {
        (self.condition)(key, state)
    }
}

/// Custom conditions made of a closure.
struct ClosureConditions<F>(F);

impl<F: Fn(&str, &GameEvent, &GameState) -> bool> CustomConditions for ClosureConditions<F> {
    fn eval(&self, key: &str, event: &GameEvent, state: &GameState) -> bool {
        (self.0)(key, event, state)
    }
}
use rand::Rng;

/// A search configuration with its floating-point parameters.
#[derive(Clone, Debug)]
struct MCTSConfig {
    exploration_constant: f64,
    max_depth: u32,
    max_nodes: usize,
    expansion_threshold: u32,
    seed: u64,
    gamma: f64,
    temperature: f64,
}

impl Default for MCTSConfig {
    fn default() -> Self {
        Self {
            exploration_constant: std::f64::consts::SQRT_2,
            max_depth: 0,
            max_nodes: 100_000,
            expansion_threshold: 1,
            seed: 42,
            gamma: 1.0,
            temperature: 0.0,
        }
    }
}

impl MCTSConfig {
    fn with_exploration(mut self, c: f64) -> Self {
        self.exploration_constant = c;
        self
    }

    fn with_seed(mut self, seed: u64) -> Self {
        self.seed = seed;
        self
    }

    fn with_max_depth(mut self, depth: u32) -> Self {
        self.max_depth = depth;
        self
    }

    fn with_temperature(mut self, temp: f64) -> Self {
        self.temperature = temp;
        self
    }

    fn limits(&self) -> SearchLimits {
        SearchLimits { max_depth: self.max_depth, max_nodes: self.max_nodes, seed: self.seed }
    }
}

/// Rewards as one `f64` per player.
struct FloatModel;

/// Reward sums and the prior of an edge.
#[derive(Clone, Debug)]
struct FloatEdgeStats {
    total_reward: Vec<f64>,
    prior: f32,
}

fn result_to_rewards(result: &GameResult, player_count: usize) -> Vec<f64> {
    (0..player_count)
        .map(|index| {
            let player = PlayerId::new(index as u8);
            match result {
                GameResult::Winner(winner) => {
                    if *winner == player {
                        1.0
                    } else {
                        0.0
                    }
                }
                GameResult::Winners(winners) => {
                    if winners.contains(&player) {
                        1.0
                    } else {
                        0.0
                    }
                }
                GameResult::Draw => 0.5,
            }
        })
        .collect()
}

fn heuristic_eval(state: &GameState, player_count: usize) -> Vec<f64> {
    let lives: Vec<i64> = (0..player_count)
        .map(|index| state.public.get_player_state(PlayerId::new(index as u8), "life", 0).max(0))
        .collect();
    let total: i64 = lives.iter().sum();
    if total <= 0 {
        return vec![0.5; player_count];
    }
    lives.iter().map(|life| *life as f64 / total as f64).collect()
}

impl RewardModel for FloatModel {
    type Rewards = Vec<f64>;
    type EdgeStats = FloatEdgeStats;

    fn fresh_edge(player_count: usize) -> FloatEdgeStats {
        FloatEdgeStats { total_reward: vec![0.0; player_count], prior: 1.0 }
    }

    fn record(stats: &mut FloatEdgeStats, rewards: &Vec<f64>) {
        for (sum, reward) in stats.total_reward.iter_mut().zip(rewards.iter()) {
            *sum += *reward;
        }
    }

    fn copy_rewards(rewards: &Vec<f64>) -> Vec<f64> {
        rewards.clone()
    }

    fn rewards_of(result: &GameResult, player_count: usize) -> Vec<f64> {
        result_to_rewards(result, player_count)
    }

    fn estimate(state: &GameState, player_count: usize) -> Vec<f64> {
        heuristic_eval(state, player_count)
    }

    fn even(player_count: usize) -> Vec<f64> {
        vec![0.5; player_count]
    }
}

/// The mean reward of an edge for a player; 0 for an edge without visits.
fn mean_reward(edge: &Edge<FloatModel>, player: PlayerId) -> f64 {
    if edge.visits == 0 {
        0.0
    } else {
        edge.stats.total_reward[player.index()] / edge.visits as f64
    }
}

/// The edge with the greatest mean reward for a player.
fn best_edge_by_reward(node: &MCTSNode<FloatModel>, player: PlayerId) -> Option<&Edge<FloatModel>> {
    node.edges
        .iter()
        .max_by(|a, b| mean_reward(a, player).partial_cmp(&mean_reward(b, player)).unwrap())
}

/// Upper Confidence Bound selection.
#[derive(Clone, Debug)]
struct UCB1 {
    exploration_constant: f64,
}

impl Default for UCB1 {
    fn default() -> Self {
        UCB1 { exploration_constant: std::f64::consts::SQRT_2 }
    }
}

impl SelectionPolicy<FloatModel> for UCB1 {
    fn select(&self, node: &MCTSNode<FloatModel>, player: PlayerId) -> usize {
        if node.edges.is_empty() {
            return 0;
        }
        let ln_parent = (node.visits.max(1) as f64).ln();
        node.edges
            .iter()
            .enumerate()
            .map(|(i, edge)| {
                let exploitation = mean_reward(edge, player);
                let exploration = if edge.visits == 0 {
                    f64::INFINITY
                } else {
                    self.exploration_constant * (ln_parent / edge.visits as f64).sqrt()
                };
                (i, exploitation + exploration)
            })
            .max_by(|(_, a), (_, b)| a.partial_cmp(b).unwrap_or(std::cmp::Ordering::Equal))
            .map(|(i, _)| i)
            .unwrap_or(0)
    }
}

/// Polynomial UCT selection, which weighs exploration by the edge's prior.
#[derive(Clone, Debug)]
struct PUCT {
    exploration_constant: f64,
}

impl Default for PUCT {
    fn default() -> Self {
        PUCT { exploration_constant: std::f64::consts::SQRT_2 }
    }
}

impl SelectionPolicy<FloatModel> for PUCT {
    fn select(&self, node: &MCTSNode<FloatModel>, player: PlayerId) -> usize {
        if node.edges.is_empty() {
            return 0;
        }
        let sqrt_parent = (node.visits.max(1) as f64).sqrt();
        node.edges
            .iter()
            .enumerate()
            .map(|(i, edge)| {
                let q = mean_reward(edge, player);
                let u = self.exploration_constant * edge.stats.prior as f64 * sqrt_parent
                    / (1.0 + edge.visits as f64);
                (i, q + u)
            })
            .max_by(|(_, a), (_, b)| a.partial_cmp(b).unwrap_or(std::cmp::Ordering::Equal))
            .map(|(i, _)| i)
            .unwrap_or(0)
    }
}

/// Hands rand the words of a game's generator, for its floating-point
// draws.
struct Words<'a>(&'a mut GameRng);

impl<'a> rand::RngCore for Words<'a> {
    fn next_u32(&mut self) -> u32 {
        self.0.next_word()
    }

    fn next_u64(&mut self) -> u64 {
        self.0.next_words()
    }

    fn fill_bytes(&mut self, dest: &mut [u8]) {
        for chunk in dest.chunks_mut(4) {
            let bytes = self.0.next_word().to_le_bytes();
            chunk.copy_from_slice(&bytes[..chunk.len()]);
        }
    }

    fn try_fill_bytes(&mut self, dest: &mut [u8]) -> Result<(), rand::Error> {
        self.fill_bytes(dest);
        Ok(())
    }
}

// Draws an index with the given weights; none where no weight is positive.
fn choose_weighted(rng: &mut GameRng, weights: &[f32]) -> Option<usize> {
    if weights.is_empty() {
        return None;
    }
    let total: f32 = weights.iter().sum();
    if total <= 0.0 {
        return None;
    }
    let mut threshold = Words(rng).gen::<f32>() * total;
    for (i, &weight) in weights.iter().enumerate() {
        threshold -= weight;
        if threshold <= 0.0 {
            return Some(i);
        }
    }
    Some(weights.len() - 1)
}

/// Draws `true` with the given probability.
fn gen_bool(rng: &mut GameRng, probability: f64) -> bool {
    Words(rng).gen_bool(probability)
}

/// A search with floating-point rewards.
struct FloatSearch<E: RulesEngine + Clone> {
    inner: MCTSSearch<E, FloatModel>,
    config: MCTSConfig,
}

impl<E: RulesEngine + Clone> FloatSearch<E> {
    fn new(engine: E, config: MCTSConfig) -> Self {
        let selection = Box::new(UCB1 { exploration_constant: config.exploration_constant });
        FloatSearch { inner: MCTSSearch::new(engine, config.limits(), selection), config }
    }

    fn with_selection<S: SelectionPolicy<FloatModel> + 'static>(mut self, selection: S) -> Self {
        self.inner = self.inner.with_selection(Box::new(selection));
        self
    }

    fn with_simulation<S: SimulationPolicy<E, FloatModel> + 'static>(
        mut self,
        simulation: S,
    ) -> Self {
        self.inner = self.inner.with_simulation(Box::new(simulation));
        self
    }

    fn with_opponent<O: OpponentPolicy<E> + 'static>(mut self, opponent: O) -> Self {
        self.inner = self.inner.with_opponent(Box::new(opponent));
        self
    }

    /// Searches, and picks the action by the configured temperature:
    /// the most visited one at temperature 0, else one drawn by the
    /// softmax of the visits.
    fn search(&mut self, state: &mut GameState, player: PlayerId, iterations: u32) -> Option<Action> {
        assert!(iterations <= 0x7FFF_FFFF, "too many iterations");
        let greedy = self.inner.search(state, player, iterations);
        if self.config.temperature <= 0.0 {
            return greedy;
        }
        let root = self.inner.tree().root_node();
        if root.is_terminal || root.edges.is_empty() {
            return None;
        }
        if root.edges.len() == 1 {
            return greedy;
        }
        let weights: Vec<f32> = root
            .edges
            .iter()
            .map(|e| (e.visits as f32 / self.config.temperature as f32).exp())
            .collect();
        let mut rng = self.inner.rng().clone();
        choose_weighted(&mut rng, &weights).map(|index| root.edges[index].action.clone())
    }

    fn stats(&self) -> &SearchStats {
        self.inner.stats()
    }

    fn tree(&self) -> &MCTSTree<FloatModel> {
        self.inner.tree()
    }

    fn engine(&self) -> &E {
        self.inner.engine()
    }

    fn config(&self) -> &MCTSConfig {
        &self.config
    }

    fn action_visits(&self) -> Vec<(Action, u32)> {
        self.inner.action_visits()
    }

    fn action_probabilities(&self) -> Vec<(Action, f64)> {
        let visits = self.inner.action_visits();
        let total: u32 = visits.iter().map(|(_, v)| *v).sum();
        if total == 0 {
            let uniform = 1.0 / visits.len().max(1) as f64;
            return visits.into_iter().map(|(a, _)| (a, uniform)).collect();
        }
        visits.into_iter().map(|(a, v)| (a, v as f64 / total as f64)).collect()
    }

    fn set_root_priors(&mut self, priors: &[(Action, f32)]) -> usize {
        let actions = self.inner.action_visits();
        let mut updated = 0;
        for (index, (action, _)) in actions.iter().enumerate() {
            if let Some((_, prior)) = priors.iter().find(|(a, _)| a == action) {
                if let Some(stats) = self.inner.root_edge_stats(index) {
                    stats.prior = *prior;
                    updated += 1;
                }
            }
        }
        updated
    }

    fn root_priors(&self) -> Vec<(Action, f32)> {
        self.inner
            .tree()
            .root_node()
            .edges
            .iter()
            .map(|e| (e.action.clone(), e.stats.prior))
            .collect()
    }
}

/// Edges per node.
fn branching_factor(stats: &TreeStats) -> f64 {
    if stats.node_count == 0 {
        0.0
    } else {
        stats.total_edges as f64 / stats.node_count as f64
    }
}

/// The share of edges that are expanded.
fn expansion_ratio(stats: &TreeStats) -> f64 {
    if stats.total_edges == 0 {
        0.0
    } else {
        stats.expanded_edges as f64 / stats.total_edges as f64
    }
}

/// Iterations per second of a search.
fn iterations_per_second(stats: &SearchStats) -> f64 {
    if stats.time_us == 0 {
        0.0
    } else {
        stats.iterations as f64 / (stats.time_us as f64 / 1_000_000.0)
    }
}

/// Simulations per second of a search.
fn simulations_per_second(stats: &SearchStats) -> f64 {
    if stats.time_us == 0 {
        0.0
    } else {
        stats.simulations as f64 / (stats.time_us as f64 / 1_000_000.0)
    }
}

/// Nodes expanded per iteration of a search.
fn avg_nodes_per_iteration(stats: &SearchStats) -> f64 {
    if stats.iterations == 0 {
        0.0
    } else {
        stats.nodes_expanded as f64 / stats.iterations as f64
    }
}



#[test]
fn test_node_id() {
    let id = NodeId::new(5);
    assert_eq!(id.raw(), 5);
    assert!(!id.is_none());
    assert_eq!(id.to_string(), "NodeId(5)");

    assert!(NodeId::none().is_none());
    assert_eq!(NodeId::none().to_string(), "NodeId(NONE)");
}

#[test]
fn test_edge_new() {
    let action = Action::new(TemplateId::new(1));
    let edge = Edge::<FloatModel>::new(action, 2);

    assert_eq!(edge.visits, 0);
    assert!(edge.child.is_none());
    assert!(!edge.is_expanded());
    assert_eq!(edge.stats.prior, 1.0);
}

#[test]
fn test_edge_mean_reward() {
    let action = Action::new(TemplateId::new(1));
    let mut edge = Edge::<FloatModel>::new(action, 2);

    // No visits = 0 reward
    assert_eq!(mean_reward(&edge, PlayerId::new(0)), 0.0);

    // Add some visits and rewards
    edge.visits = 4;
    edge.stats.total_reward[0] = 3.0;
    edge.stats.total_reward[1] = 1.0;

    assert_eq!(mean_reward(&edge, PlayerId::new(0)), 0.75);
    assert_eq!(mean_reward(&edge, PlayerId::new(1)), 0.25);
}

#[test]
fn test_node_root() {
    let node = MCTSNode::<FloatModel>::root(PlayerId::new(0));

    assert!(node.parent.is_none());
    assert_eq!(node.depth, 0);
    assert_eq!(node.to_move, PlayerId::new(0));
    assert_eq!(node.visits, 0);
    assert!(!node.is_terminal);
    assert!(node.edges.is_empty());
}

#[test]
fn test_node_expansion_state() {
    let mut node = MCTSNode::<FloatModel>::root(PlayerId::new(0));

    // Empty node - has_unexpanded is false (no edges to be unexpanded)
    // is_fully_expanded is also false (we require edges to exist)
    assert!(!node.has_unexpanded());
    assert!(!node.is_fully_expanded());

    // Add unexpanded edges
    node.edges.push(Edge::<FloatModel>::new(Action::new(TemplateId::new(1)), 2));
    node.edges.push(Edge::<FloatModel>::new(Action::new(TemplateId::new(2)), 2));

    assert!(node.has_unexpanded());
    assert!(!node.is_fully_expanded());

    // Expand one
    node.edges[0].child = NodeId::new(1);

    assert!(node.has_unexpanded());
    assert!(!node.is_fully_expanded());

    // Expand all
    node.edges[1].child = NodeId::new(2);

    assert!(!node.has_unexpanded());
    assert!(node.is_fully_expanded());
}

#[test]
fn test_unexpanded_edges() {
    let mut node = MCTSNode::<FloatModel>::root(PlayerId::new(0));
    node.edges.push(Edge::<FloatModel>::new(Action::new(TemplateId::new(1)), 2));
    node.edges.push(Edge::<FloatModel>::new(Action::new(TemplateId::new(2)), 2));
    node.edges.push(Edge::<FloatModel>::new(Action::new(TemplateId::new(3)), 2));

    // Expand middle one
    node.edges[1].child = NodeId::new(10);

    let unexpanded: Vec<_> = node.unexpanded_edges().into_iter().collect();
    assert_eq!(unexpanded, vec![0, 2]);
}

#[test]
fn test_best_edge() {
    let mut node = MCTSNode::<FloatModel>::root(PlayerId::new(0));

    let mut edge1 = Edge::<FloatModel>::new(Action::new(TemplateId::new(1)), 2);
    edge1.visits = 10;
    edge1.stats.total_reward[0] = 5.0;

    let mut edge2 = Edge::<FloatModel>::new(Action::new(TemplateId::new(2)), 2);
    edge2.visits = 20;
    edge2.stats.total_reward[0] = 8.0;

    node.edges.push(edge1);
    node.edges.push(edge2);

    // Best by visits
    let best = node.best_edge_by_visits().unwrap();
    assert_eq!(best.action.template, TemplateId::new(2));

    // Best by reward (edge1 has 0.5, edge2 has 0.4)
    let best = best_edge_by_reward(&node, PlayerId::new(0)).unwrap();
    assert_eq!(best.action.template, TemplateId::new(1));
}
