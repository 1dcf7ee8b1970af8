#![allow(unused_imports)]
#![allow(unused_variables)]
#![allow(unused_mut)]
#![allow(dead_code)]

use rust_ccg::base::action::{Action, ActionRecord, PointerList};
use rust_ccg::base::config::{
    GameConfig, PhaseId, TemplateConfig, TemplateId, ZoneConfig, ZoneId, ZoneVisibility,
};
use rust_ccg::base::entity::EntityId;
use rust_ccg::base::player::{PlayerId, PlayerMap};
use rust_ccg::base::rng::{GameRng, GameRngState};
use rust_ccg::base::state::{GameState, PublicState};
use rust_ccg::cards::attributes::{AttributeKey, AttributeValue, Attributes};
use rust_ccg::cards::definition::{CardDefinition, CardId, CardTypeId};
use rust_ccg::cards::instance::CardInstance;
use rust_ccg::cards::registry::CardRegistry;
use rust_ccg::effects::effect::{Effect, EffectBatch, EffectEntry};
use rust_ccg::effects::resolver::{EffectResolver, ResolveResult, ResolverContext, SharedZones};
use rust_ccg::effects::targeting::{
    TargetCount, TargetFilter, TargetSelector, TargetSpec, TargetType,
};
use rust_ccg::mcts::node::{Edge, MCTSNode, NodeId, RewardModel};
use rust_ccg::mcts::policy::{
    OpponentPolicy, RandomSimulation, SelectionPolicy, SimulationPolicy, UniformOpponent,
};
use rust_ccg::mcts::search::{MCTSSearch, SearchLimits};
use rust_ccg::mcts::stats::SearchStats;
use rust_ccg::mcts::tree::{MCTSTree, TreeStats};
use rust_ccg::rules::engine::{ActionEnumeration, GameResult, RulesEngine};
use rust_ccg::training::self_play::{greedy_from, MoveChooser, SelfPlayWorker};
use rust_ccg::training::trajectory::{sample_indices, ExperienceBuffer, Recorded, Trajectory};
use rust_ccg::stack::immediate::ImmediateResolution;
use rust_ccg::stack::priority::{PriorityStack, StackEntry, StackEntryId, StackSource};
use rust_ccg::stack::{ResolutionStatus, ResolutionSystem};
use rust_ccg::triggers::condition::{
    ConditionContext, ConditionEvaluator, CustomConditions, TriggerCondition,
};
use rust_ccg::triggers::event::{EventTypeConfig, EventTypeId, GameEvent};
use rust_ccg::triggers::registry::{
    Trigger, TriggerId, TriggerRegistry, TriggerTiming, TriggeredEffect,
};
use rust_ccg::zones::manager::{ZoneManager, ZonePosition};

/// A resolver context made of closures.
struct ClosureContext<'a> {
    deck: Box<dyn Fn(PlayerId) -> ZoneId + 'a>,
    hand: Box<dyn Fn(PlayerId) -> ZoneId + 'a>,
    condition: Box<dyn Fn(&str, &GameState) -> bool + 'a>,
}

impl<'a> ClosureContext<'a> {
    fn new(
        deck: impl Fn(PlayerId) -> ZoneId + 'a,
        hand: impl Fn(PlayerId) -> ZoneId + 'a,
    ) -> Self {
        ClosureContext {
            deck: Box::new(deck),
            hand: Box::new(hand),
            condition: Box::new(|_, _| false),
        }
    }

    fn with_condition_eval(mut self, eval: impl Fn(&str, &GameState) -> bool + 'a) -> Self {
        self.condition = Box::new(eval);
        self
    }
}

impl<'a> ResolverContext for ClosureContext<'a> {
    fn get_deck_zone(&self, player: PlayerId) -> ZoneId {
        (self.deck)(player)
    }

    fn get_hand_zone(&self, player: PlayerId) -> ZoneId {
        (self.hand)(player)
    }

    fn eval_condition(&self, key: &str, state: &GameState) -> bool {
        (self.condition)(key, state)
    }
}

/// Custom conditions made of a closure.
struct ClosureConditions<F>(F);

impl<F: Fn(&str, &GameEvent, &GameState) -> bool> CustomConditions for ClosureConditions<F> {
    fn eval(&self, key: &str, event: &GameEvent, state: &GameState) -> bool {
        (self.0)(key, event, state)
    }
}
use rand::Rng;



// A search configuration with its floating-point parameters.
#[derive(Clone, Debug)]
struct MCTSConfig {
    exploration_constant: f64,
    max_depth: u32,
    max_nodes: usize,
    expansion_threshold: u32,
    seed: u64,
    gamma: f64,
    temperature: f64,
}

impl Default for MCTSConfig {
    fn default() -> Self {
        Self {
            exploration_constant: std::f64::consts::SQRT_2,
            max_depth: 0,
            max_nodes: 100_000,
            expansion_threshold: 1,
            seed: 42,
            gamma: 1.0,
            temperature: 0.0,
        }
    }
}

impl MCTSConfig {
    fn with_exploration(mut self, c: f64) -> Self {
        self.exploration_constant = c;
        self
    }

    fn with_seed(mut self, seed: u64) -> Self {
        self.seed = seed;
        self
    }

    fn with_max_depth(mut self, depth: u32) -> Self {
        self.max_depth = depth;
        self
    }

    fn with_temperature(mut self, temp: f64) -> Self {
        self.temperature = temp;
        self
    }

    fn limits(&self) -> SearchLimits {
        SearchLimits { max_depth: self.max_depth, max_nodes: self.max_nodes, seed: self.seed }
    }
}

// Rewards as one `f64` per player.
struct FloatModel;

// Reward sums and the prior of an edge.
#[derive(Clone, Debug)]
struct FloatEdgeStats {
    total_reward: Vec<f64>,
    prior: f32,
}

fn result_to_rewards(result: &GameResult, player_count: usize) -> Vec<f64> {
    (0..player_count)
        .map(|index| {
            let player = PlayerId::new(index as u8);
            match result {
                GameResult::Winner(winner) => {
                    if *winner == player {
                        1.0
                    } else {
                        0.0
                    }
                }
                GameResult::Winners(winners) => {
                    if winners.contains(&player) {
                        1.0
                    } else {
                        0.0
                    }
                }
                GameResult::Draw => 0.5,
            }
        })
        .collect()
}

fn heuristic_eval(state: &GameState, player_count: usize) -> Vec<f64> {
    let lives: Vec<i64> = (0..player_count)
        .map(|index| state.public.get_player_state(PlayerId::new(index as u8), "life", 0).max(0))
        .collect();
    let total: i64 = lives.iter().sum();
    if total <= 0 {
        return vec![0.5; player_count];
    }
    lives.iter().map(|life| *life as f64 / total as f64).collect()
}

impl RewardModel for FloatModel {
    type Rewards = Vec<f64>;
    type EdgeStats = FloatEdgeStats;

    fn fresh_edge(player_count: usize) -> FloatEdgeStats {
        FloatEdgeStats { total_reward: vec![0.0; player_count], prior: 1.0 }
    }

    fn record(stats: &mut FloatEdgeStats, rewards: &Vec<f64>) {
        for (sum, reward) in stats.total_reward.iter_mut().zip(rewards.iter()) {
            *sum += *reward;
        }
    }

    fn copy_rewards(rewards: &Vec<f64>) -> Vec<f64> {
        rewards.clone()
    }

    fn rewards_of(result: &GameResult, player_count: usize) -> Vec<f64> {
        result_to_rewards(result, player_count)
    }

    fn estimate(state: &GameState, player_count: usize) -> Vec<f64> {
        heuristic_eval(state, player_count)
    }

    fn even(player_count: usize) -> Vec<f64> {
        vec![0.5; player_count]
    }
}

// The mean reward of an edge for a player; 0 for an edge without visits.
fn mean_reward(edge: &Edge<FloatModel>, player: PlayerId) -> f64 {
    if edge.visits == 0 {
        0.0
    } else {
        edge.stats.total_reward[player.index()] / edge.visits as f64
    }
}

// The edge with the greatest mean reward for a player.
fn best_edge_by_reward(node: &MCTSNode<FloatModel>, player: PlayerId) -> Option<&Edge<FloatModel>> {
    node.edges
        .iter()
        .max_by(|a, b| mean_reward(a, player).partial_cmp(&mean_reward(b, player)).unwrap())
}

// Upper Confidence Bound selection.
#[derive(Clone, Debug)]
struct UCB1 {
    exploration_constant: f64,
}

impl Default for UCB1 {
    fn default() -> Self {
        UCB1 { exploration_constant: std::f64::consts::SQRT_2 }
    }
}

impl SelectionPolicy<FloatModel> for UCB1 {
    fn select(&self, node: &MCTSNode<FloatModel>, player: PlayerId) -> usize {
        if node.edges.is_empty() {
            return 0;
        }
        let ln_parent = (node.visits.max(1) as f64).ln();
        node.edges
            .iter()
            .enumerate()
            .map(|(i, edge)| {
                let exploitation = mean_reward(edge, player);
                let exploration = if edge.visits == 0 {
                    f64::INFINITY
                } else {
                    self.exploration_constant * (ln_parent / edge.visits as f64).sqrt()
                };
                (i, exploitation + exploration)
            })
            .max_by(|(_, a), (_, b)| a.partial_cmp(b).unwrap_or(std::cmp::Ordering::Equal))
            .map(|(i, _)| i)
            .unwrap_or(0)
    }
}

// Polynomial UCT selection, which weighs exploration by the edge's prior.
#[derive(Clone, Debug)]
struct PUCT {
    exploration_constant: f64,
}

impl Default for PUCT {
    fn default() -> Self {
        PUCT { exploration_constant: std::f64::consts::SQRT_2 }
    }
}

impl SelectionPolicy<FloatModel> for PUCT {
    fn select(&self, node: &MCTSNode<FloatModel>, player: PlayerId) -> usize {
        if node.edges.is_empty() {
            return 0;
        }
        let sqrt_parent = (node.visits.max(1) as f64).sqrt();
        node.edges
            .iter()
            .enumerate()
            .map(|(i, edge)| {
                let q = mean_reward(edge, player);
                let u = self.exploration_constant * edge.stats.prior as f64 * sqrt_parent
                    / (1.0 + edge.visits as f64);
                (i, q + u)
            })
            .max_by(|(_, a), (_, b)| a.partial_cmp(b).unwrap_or(std::cmp::Ordering::Equal))
            .map(|(i, _)| i)
            .unwrap_or(0)
    }
}

// Hands rand the words of a game's generator, for its floating-point
// draws.
struct Words<'a>(&'a mut GameRng);

impl<'a> rand::RngCore for Words<'a> {
    fn next_u32(&mut self) -> u32 {
        self.0.next_word()
    }

    fn next_u64(&mut self) -> u64 {
        self.0.next_words()
    }

    fn fill_bytes(&mut self, dest: &mut [u8]) {
        for chunk in dest.chunks_mut(4) {
            let bytes = self.0.next_word().to_le_bytes();
            chunk.copy_from_slice(&bytes[..chunk.len()]);
        }
    }

    fn try_fill_bytes(&mut self, dest: &mut [u8]) -> Result<(), rand::Error> {
        self.fill_bytes(dest);
        Ok(())
    }
}

// Draws an index with the given weights; none where no weight is positive.
fn choose_weighted(rng: &mut GameRng, weights: &[f32]) -> Option<usize> {
    if weights.is_empty() {
        return None;
    }
    let total: f32 = weights.iter().sum();
    if total <= 0.0 {
        return None;
    }
    let mut threshold = Words(rng).gen::<f32>() * total;
    for (i, &weight) in weights.iter().enumerate() {
        threshold -= weight;
        if threshold <= 0.0 {
            return Some(i);
        }
    }
    Some(weights.len() - 1)
}

// Draws `true` with the given probability.
fn gen_bool(rng: &mut GameRng, probability: f64) -> bool {
    Words(rng).gen_bool(probability)
}

// A search with floating-point rewards.
struct FloatSearch<E: RulesEngine + Clone> {
    inner: MCTSSearch<E, FloatModel>,
    config: MCTSConfig,
}

impl<E: RulesEngine + Clone> FloatSearch<E> {
    fn new(engine: E, config: MCTSConfig) -> Self {
        let selection = Box::new(UCB1 { exploration_constant: config.exploration_constant });
        FloatSearch { inner: MCTSSearch::new(engine, config.limits(), selection), config }
    }

    fn with_selection<S: SelectionPolicy<FloatModel> + 'static>(mut self, selection: S) -> Self {
        self.inner = self.inner.with_selection(Box::new(selection));
        self
    }

    fn with_simulation<S: SimulationPolicy<E, FloatModel> + 'static>(
        mut self,
        simulation: S,
    ) -> Self {
        self.inner = self.inner.with_simulation(Box::new(simulation));
        self
    }

    fn with_opponent<O: OpponentPolicy<E> + 'static>(mut self, opponent: O) -> Self {
        self.inner = self.inner.with_opponent(Box::new(opponent));
        self
    }

    // Searches, and picks the action by the configured temperature:
    // the most visited one at temperature 0, else one drawn by the
    // softmax of the visits.
    fn search(&mut self, state: &mut GameState, player: PlayerId, iterations: u32) -> Option<Action> {
        assert!(iterations <= 0x7FFF_FFFF, "too many iterations");
        let greedy = self.inner.search(state, player, iterations);
        if self.config.temperature <= 0.0 {
            return greedy;
        }
        let root = self.inner.tree().root_node();
        if root.is_terminal || root.edges.is_empty() {
            return None;
        }
        if root.edges.len() == 1 {
            return greedy;
        }
        let weights: Vec<f32> = root
            .edges
            .iter()
            .map(|e| (e.visits as f32 / self.config.temperature as f32).exp())
            .collect();
        let mut rng = self.inner.rng().clone();
        choose_weighted(&mut rng, &weights).map(|index| root.edges[index].action.clone())
    }

    fn stats(&self) -> &SearchStats {
        self.inner.stats()
    }

    fn tree(&self) -> &MCTSTree<FloatModel> {
        self.inner.tree()
    }

    fn engine(&self) -> &E {
        self.inner.engine()
    }

    fn config(&self) -> &MCTSConfig {
        &self.config
    }

    fn action_visits(&self) -> Vec<(Action, u32)> {
        self.inner.action_visits()
    }

    fn action_probabilities(&self) -> Vec<(Action, f64)> {
        let visits = self.inner.action_visits();
        let total: u32 = visits.iter().map(|(_, v)| *v).sum();
        if total == 0 {
            let uniform = 1.0 / visits.len().max(1) as f64;
            return visits.into_iter().map(|(a, _)| (a, uniform)).collect();
        }
        visits.into_iter().map(|(a, v)| (a, v as f64 / total as f64)).collect()
    }

    fn set_root_priors(&mut self, priors: &[(Action, f32)]) -> usize {
        let actions = self.inner.action_visits();
        let mut updated = 0;
        for (index, (action, _)) in actions.iter().enumerate() {
            if let Some((_, prior)) = priors.iter().find(|(a, _)| a == action) {
                if let Some(stats) = self.inner.root_edge_stats(index) {
                    stats.prior = *prior;
                    updated += 1;
                }
            }
        }
        updated
    }

    fn root_priors(&self) -> Vec<(Action, f32)> {
        self.inner
            .tree()
            .root_node()
            .edges
            .iter()
            .map(|e| (e.action.clone(), e.stats.prior))
            .collect()
    }
}

// Edges per node.
fn branching_factor(stats: &TreeStats) -> f64 {
    if stats.node_count == 0 {
        0.0
    } else {
        stats.total_edges as f64 / stats.node_count as f64
    }
}

// The share of edges that are expanded.
fn expansion_ratio(stats: &TreeStats) -> f64 {
    if stats.total_edges == 0 {
        0.0
    } else {
        stats.expanded_edges as f64 / stats.total_edges as f64
    }
}

// Iterations per second of a search.
fn iterations_per_second(stats: &SearchStats) -> f64 {
    if stats.time_us == 0 {
        0.0
    } else {
        stats.iterations as f64 / (stats.time_us as f64 / 1_000_000.0)
    }
}

// Simulations per second of a search.
fn simulations_per_second(stats: &SearchStats) -> f64 {
    if stats.time_us == 0 {
        0.0
    } else {
        stats.simulations as f64 / (stats.time_us as f64 / 1_000_000.0)
    }
}

// Nodes expanded per iteration of a search.
fn avg_nodes_per_iteration(stats: &SearchStats) -> f64 {
    if stats.iterations == 0 {
        0.0
    } else {
        stats.nodes_expanded as f64 / stats.iterations as f64
    }
}



// A state as a flat tensor with its shape.
#[derive(Clone, Debug)]
struct EncodedState {
    tensor: Vec<f32>,
    shape: Vec<usize>,
}

impl EncodedState {
    fn new(tensor: Vec<f32>, shape: Vec<usize>) -> Self {
        assert_eq!(
            tensor.len(),
            shape.iter().product::<usize>(),
            "Tensor length must match shape product"
        );
        Self { tensor, shape }
    }

    fn zeros(shape: Vec<usize>) -> Self {
        let size = shape.iter().product();
        Self { tensor: vec![0.0; size], shape }
    }

    fn len(&self) -> usize {
        self.tensor.len()
    }

    fn is_empty(&self) -> bool {
        self.tensor.is_empty()
    }

    fn get(&self, index: usize) -> Option<f32> {
        self.tensor.get(index).copied()
    }

    fn set(&mut self, index: usize, value: f32) {
        if index < self.tensor.len() {
            self.tensor[index] = value;
        }
    }
}

// Turns a state into what a network sees from one player's perspective.
// An encoder must hide what the game marks as not visible to that player.
trait StateEncoder: Send + Sync {
    fn encode(&self, state: &GameState, perspective: PlayerId) -> EncodedState;
    fn output_shape(&self) -> Vec<usize>;
    fn action_space_size(&self) -> usize;
    fn player_count(&self) -> usize;
}

// Scores for each action of the action space.
trait PolicyNetwork: Send + Sync {
    fn predict(&self, encoded: &EncodedState) -> Vec<f32>;

    fn predict_batch(&self, encoded: &[EncodedState]) -> Vec<Vec<f32>> {
        encoded.iter().map(|e| self.predict(e)).collect()
    }
}

// A value for each player.
trait ValueNetwork: Send + Sync {
    fn predict(&self, encoded: &EncodedState) -> Vec<f32>;

    fn predict_batch(&self, encoded: &[EncodedState]) -> Vec<Vec<f32>> {
        encoded.iter().map(|e| self.predict(e)).collect()
    }
}

// Scores for each action and a value for each player.
trait PolicyValueNetwork: Send + Sync {
    fn predict(&self, encoded: &EncodedState) -> (Vec<f32>, Vec<f32>);

    fn predict_batch(&self, encoded: &[EncodedState]) -> Vec<(Vec<f32>, Vec<f32>)> {
        encoded.iter().map(|e| self.predict(e)).collect()
    }
}

// The same score for every action.
#[derive(Clone, Debug, Default)]
struct UniformPolicy {
    action_space_size: usize,
}

impl UniformPolicy {
    fn new(action_space_size: usize) -> Self {
        Self { action_space_size }
    }
}

impl PolicyNetwork for UniformPolicy {
    fn predict(&self, _encoded: &EncodedState) -> Vec<f32> {
        if self.action_space_size == 0 {
            return vec![];
        }
        let prob = 1.0 / self.action_space_size as f32;
        vec![prob; self.action_space_size]
    }
}

// The value 0 for every player.
#[derive(Clone, Debug, Default)]
struct ZeroValue {
    player_count: usize,
}

impl ZeroValue {
    fn new(player_count: usize) -> Self {
        Self { player_count }
    }
}

impl ValueNetwork for ZeroValue {
    fn predict(&self, _encoded: &EncodedState) -> Vec<f32> {
        vec![0.0; self.player_count]
    }
}

// The same score for every action and the value 0 for every player.
#[derive(Clone, Debug, Default)]
struct UniformPolicyZeroValue {
    action_space_size: usize,
    player_count: usize,
}

impl UniformPolicyZeroValue {
    fn new(action_space_size: usize, player_count: usize) -> Self {
        Self { action_space_size, player_count }
    }
}

impl PolicyValueNetwork for UniformPolicyZeroValue {
    fn predict(&self, _encoded: &EncodedState) -> (Vec<f32>, Vec<f32>) {
        let policy = if self.action_space_size == 0 {
            vec![]
        } else {
            let prob = 1.0 / self.action_space_size as f32;
            vec![prob; self.action_space_size]
        };
        let value = vec![0.0; self.player_count];
        (policy, value)
    }
}

// An encoder of life, hand size and whose turn it is, per player.
#[derive(Clone, Debug)]
struct SimpleGameEncoder {
    player_count: usize,
    max_life: f32,
    max_cards: f32,
    action_space: usize,
}

impl SimpleGameEncoder {
    fn new(player_count: usize, action_space: usize) -> Self {
        Self { player_count, max_life: 50.0, max_cards: 20.0, action_space }
    }

    fn with_max_life(mut self, max_life: f32) -> Self {
        self.max_life = max_life;
        self
    }

    fn with_max_cards(mut self, max_cards: f32) -> Self {
        self.max_cards = max_cards;
        self
    }

    fn features_per_player(&self) -> usize {
        5
    }
}

impl StateEncoder for SimpleGameEncoder {
    fn encode(&self, state: &GameState, perspective: PlayerId) -> EncodedState {
        let features_per_player = self.features_per_player();
        let total_features = features_per_player * self.player_count;
        let mut tensor = vec![0.0f32; total_features];
        for player_idx in 0..self.player_count {
            let player = PlayerId::new(player_idx as u8);
            assert!(player_idx < state.player_count(), "player out of range");
            let base_idx = player_idx * features_per_player;
            let life = state.public.get_player_state(player, "life", 0) as f32;
            tensor[base_idx] = (life / self.max_life).clamp(0.0, 1.0);
            let hand_size = state.public.hand_sizes[player] as f32;
            tensor[base_idx + 1] = (hand_size / self.max_cards).clamp(0.0, 1.0);
            tensor[base_idx + 2] = 0.5;
            tensor[base_idx + 3] = if state.public.active_player == player { 1.0 } else { 0.0 };
            tensor[base_idx + 4] = if player == perspective { 1.0 } else { 0.0 };
        }
        EncodedState::new(tensor, vec![total_features])
    }

    fn output_shape(&self) -> Vec<usize> {
        vec![self.features_per_player() * self.player_count]
    }

    fn action_space_size(&self) -> usize {
        self.action_space
    }

    fn player_count(&self) -> usize {
        self.player_count
    }
}

// An encoder that gives zeros of a fixed shape.
#[derive(Clone, Debug)]
struct ZeroEncoder {
    shape: Vec<usize>,
    action_space: usize,
    player_count: usize,
}

impl ZeroEncoder {
    fn new(shape: Vec<usize>, action_space: usize, player_count: usize) -> Self {
        Self { shape, action_space, player_count }
    }
}

impl StateEncoder for ZeroEncoder {
    fn encode(&self, _state: &GameState, _perspective: PlayerId) -> EncodedState {
        EncodedState::zeros(self.shape.clone())
    }

    fn output_shape(&self) -> Vec<usize> {
        self.shape.clone()
    }

    fn action_space_size(&self) -> usize {
        self.action_space
    }

    fn player_count(&self) -> usize {
        self.player_count
    }
}

use rust_ccg::games::simple::{PlayerZones, SimpleGame, SimpleGameBuilder, Templates};
type GameLoop<E> = SelfPlayWorker<E>;


// One decision of a game: what the player saw, what the search thought
// of each action, and what was done.
#[derive(Clone, Debug)]
struct Step {
    encoded_state: EncodedState,
    action_probs: Vec<(Action, f64)>,
    action_taken: Action,
    player: PlayerId,
    move_number: usize,
}

impl Step {
    fn new(
        encoded_state: EncodedState,
        action_probs: Vec<(Action, f64)>,
        action_taken: Action,
        player: PlayerId,
        move_number: usize,
    ) -> Self {
        Self { encoded_state, action_probs, action_taken, player, move_number }
    }

    fn taken_action_prob(&self) -> f64 {
        self.action_probs
            .iter()
            .find(|(a, _)| a == &self.action_taken)
            .map(|(_, p)| *p)
            .unwrap_or(0.0)
    }
}

// A recorded game: steps, and one reward per player.
type GameTrajectory = Trajectory<Step, PlayerMap<f64>>;

// A trajectory without steps whose outcome is 0 for every player.
fn new_trajectory(seed: u64, player_count: usize) -> GameTrajectory {
    Trajectory::new(seed, zero_outcome(player_count))
}

// The outcome 0 for every player.
fn zero_outcome(player_count: usize) -> PlayerMap<f64> {
    assert!(player_count > 0, "Must have at least 1 player");
    assert!(player_count <= 255, "At most 255 players supported");
    PlayerMap::with_value(player_count, 0.0)
}

// The steps of one player.
fn player_steps(trajectory: &GameTrajectory, player: PlayerId) -> Vec<&Step> {
    trajectory.steps.iter().filter(|s| s.player == player).collect()
}

// What the game was worth to a player.
fn player_outcome(trajectory: &GameTrajectory, player: PlayerId) -> f64 {
    trajectory.outcome[player]
}

// One sample of training data.
#[derive(Clone, Debug)]
struct TrainingSample {
    state: EncodedState,
    policy: Vec<f32>,
    value: f32,
    player: PlayerId,
}

// One sample per step: the state, the search's probabilities, and what
// the game was worth to the player who moved.
fn to_training_samples(trajectory: &GameTrajectory) -> Vec<TrainingSample> {
    trajectory
        .steps
        .iter()
        .map(|step| TrainingSample {
            state: step.encoded_state.clone(),
            policy: step.action_probs.iter().map(|(_, p)| *p as f32).collect(),
            value: trajectory.outcome[step.player] as f32,
            player: step.player,
        })
        .collect()
}

// The samples of every trajectory of a buffer, oldest first.
fn buffer_samples(buffer: &ExperienceBuffer<GameTrajectory>) -> Vec<TrainingSample> {
    buffer.iter().into_iter().flat_map(|t| to_training_samples(t)).collect()
}

// A batch of samples drawn from a buffer.
fn sample_batch(
    buffer: &ExperienceBuffer<GameTrajectory>,
    batch_size: usize,
    seed: u64,
) -> Vec<TrainingSample> {
    let all_samples = buffer_samples(buffer);
    sample_indices(all_samples.len(), batch_size, seed)
        .into_iter()
        .map(|i| all_samples[i].clone())
        .collect()
}

// How self-play games are played.
#[derive(Clone, Debug)]
struct SelfPlayConfig {
    mcts_iterations: u32,
    temperature: f64,
    temperature_threshold: usize,
    max_moves: usize,
    exploration_constant: f64,
    seed_offset: u64,
}

impl Default for SelfPlayConfig {
    fn default() -> Self {
        Self {
            mcts_iterations: 800,
            temperature: 1.0,
            temperature_threshold: 30,
            max_moves: 500,
            exploration_constant: 1.414,
            seed_offset: 0,
        }
    }
}

impl SelfPlayConfig {
    fn new() -> Self {
        Self::default()
    }

    fn with_mcts_iterations(mut self, iterations: u32) -> Self {
        self.mcts_iterations = iterations;
        self
    }

    fn with_temperature(mut self, temp: f64) -> Self {
        self.temperature = temp;
        self
    }

    fn with_temperature_threshold(mut self, threshold: usize) -> Self {
        self.temperature_threshold = threshold;
        self
    }

    fn with_max_moves(mut self, max: usize) -> Self {
        self.max_moves = max;
        self
    }

    fn with_exploration(mut self, c: f64) -> Self {
        self.exploration_constant = c;
        self
    }

    fn with_seed_offset(mut self, offset: u64) -> Self {
        self.seed_offset = offset;
        self
    }

    fn effective_temperature(&self, move_number: usize) -> f64 {
        if greedy_from(self.temperature_threshold, move_number) {
            0.0
        } else {
            self.temperature
        }
    }
}

// Searches for each move and records it as a step.
struct RecordingChooser<'a> {
    encoder: &'a dyn StateEncoder,
    config: &'a SelfPlayConfig,
    ask: Option<&'a dyn Fn(&EncodedState)>,
    steps: Vec<Step>,
}

impl<'a, E: RulesEngine + Clone> MoveChooser<E> for RecordingChooser<'a> {
    fn choose_move(
        &mut self,
        engine: &E,
        state: &mut GameState,
        player: PlayerId,
        move_number: usize,
        seed: u64,
    ) -> Option<Action> {
        let mcts_config = MCTSConfig::default()
            .with_exploration(self.config.exploration_constant)
            .with_temperature(self.config.effective_temperature(move_number))
            .with_seed(seed);
        let encoded_state = self.encoder.encode(state, player);
        if let Some(ask) = self.ask {
            ask(&encoded_state);
        }
        let mut search = FloatSearch::new(engine.clone(), mcts_config);
        let action = search.search(state, player, self.config.mcts_iterations)?;
        let action_probs = search.action_probabilities();
        self.steps.push(Step::new(encoded_state, action_probs, action.clone(), player, move_number));
        Some(action)
    }
}

// Plays games of a rules engine against itself and records them.
struct FloatWorker<E: RulesEngine + Clone> {
    game_loop: GameLoop<E>,
    encoder: Box<dyn StateEncoder>,
    config: SelfPlayConfig,
}

impl<E: RulesEngine + Clone> FloatWorker<E> {
    fn new(engine: E, encoder: Box<dyn StateEncoder>, config: SelfPlayConfig) -> Self {
        Self { game_loop: GameLoop::new(engine, config.max_moves), encoder, config }
    }

    // Plays one game and gives its trajectory.
    fn play_game(&self, state: &mut GameState, seed: u64) -> GameTrajectory {
        self.play_recorded(state, seed, None)
    }

    fn play_recorded(
        &self,
        state: &mut GameState,
        seed: u64,
        ask: Option<&dyn Fn(&EncodedState)>,
    ) -> GameTrajectory {
        let player_count = state.player_count();
        let mut chooser = RecordingChooser {
            encoder: self.encoder.as_ref(),
            config: &self.config,
            ask,
            steps: Vec::new(),
        };
        let played = self.game_loop.play_game(&mut chooser, state, seed);
        let mut trajectory = new_trajectory(seed, player_count);
        for step in chooser.steps {
            assert!(trajectory.game_length < usize::MAX, "too many moves");
            trajectory.push(step);
        }
        trajectory.set_outcome(self.compute_outcome(played.result, player_count));
        trajectory
    }

    // Plays one game; the network is asked at every move, as a search
    // with network priors would.
    fn play_game_with_network<N: PolicyValueNetwork>(
        &self,
        state: &mut GameState,
        seed: u64,
        network: &N,
    ) -> GameTrajectory {
        let ask = |encoded: &EncodedState| {
            let _ = network.predict(encoded);
        };
        self.play_recorded(state, seed, Some(&ask))
    }

    // Plays `count` games of states that `game_builder` makes.
    fn play_games(
        &self,
        game_builder: impl Fn(u64) -> (E, GameState),
        count: usize,
    ) -> Vec<GameTrajectory> {
        (0..count)
            .map(|i| {
                let seed = self.config.seed_offset.wrapping_add(i as u64);
                let (_engine, mut state) = game_builder(seed);
                self.play_game(&mut state, seed)
            })
            .collect()
    }

    fn compute_outcome(&self, result: Option<GameResult>, player_count: usize) -> PlayerMap<f64> {
        let mut outcome = zero_outcome(player_count);
        match result {
            Some(GameResult::Winner(winner)) => {
                assert!(winner.index() < player_count, "winner out of range");
                *outcome.get_mut(winner) = 1.0;
            }
            Some(GameResult::Winners(ref winners)) => {
                let share = 1.0 / winners.len() as f64;
                for &player in winners {
                    assert!(player.index() < player_count, "winner out of range");
                    *outcome.get_mut(player) = share;
                }
            }
            Some(GameResult::Draw) => {
                let share = 1.0 / player_count as f64;
                for player in PlayerId::all(player_count) {
                    *outcome.get_mut(player) = share;
                }
            }
            None => {
                for player in PlayerId::all(player_count) {
                    *outcome.get_mut(player) = 0.5;
                }
            }
        }
        outcome
    }

    fn encoder(&self) -> &dyn StateEncoder {
        self.encoder.as_ref()
    }

    fn config(&self) -> &SelfPlayConfig {
        &self.config
    }
}







// =============================================================================
// Encoder Tests
// =============================================================================

#[test]
fn test_simple_game_encoder_output_shape() {
    let encoder = SimpleGameEncoder::new(2, 10);
    let shape = encoder.output_shape();

    // 5 features per player * 2 players = 10
    assert_eq!(shape, vec![10]);
}

#[test]
fn test_simple_game_encoder_four_players() {
    let encoder = SimpleGameEncoder::new(4, 20);
    let shape = encoder.output_shape();

    // 5 features per player * 4 players = 20
    assert_eq!(shape, vec![20]);
}

#[test]
fn test_encoder_encodes_state() {
    let (_, state) = SimpleGameBuilder::new()
        .player_count(2)
        .starting_life(20)
        .build(42);

    let encoder = SimpleGameEncoder::new(2, 10).with_max_life(20.0);
    let encoded = encoder.encode(&state, PlayerId::new(0));

    // Check tensor is correct size
    assert_eq!(encoded.len(), 10);
    assert_eq!(encoded.shape, vec![10]);

    // Player 0's life should be 20/20 = 1.0
    assert!((encoded.tensor[0] - 1.0).abs() < 0.01);
}

#[test]
fn test_encoder_perspective() {
    let (_, state) = SimpleGameBuilder::new()
        .player_count(2)
        .build(42);

    let encoder = SimpleGameEncoder::new(2, 10);

    // Encode from player 0's perspective
    let encoded_p0 = encoder.encode(&state, PlayerId::new(0));
    // Encode from player 1's perspective
    let encoded_p1 = encoder.encode(&state, PlayerId::new(1));

    // Perspective indicators should differ
    // Player 0's perspective flag at index 4
    assert_eq!(encoded_p0.tensor[4], 1.0);
    assert_eq!(encoded_p0.tensor[9], 0.0);

    // Player 1's perspective flag at index 9
    assert_eq!(encoded_p1.tensor[4], 0.0);
    assert_eq!(encoded_p1.tensor[9], 1.0);
}

#[test]
fn training_tests_test_zero_encoder() {
    let (_, state) = SimpleGameBuilder::new()
        .player_count(2)
        .build(42);

    let encoder = ZeroEncoder::new(vec![3, 4], 10, 2);
    let encoded = encoder.encode(&state, PlayerId::new(0));

    assert_eq!(encoded.len(), 12);
    assert_eq!(encoded.shape, vec![3, 4]);
    assert!(encoded.tensor.iter().into_iter().all(|&v| v == 0.0));
}

// =============================================================================
// Network Trait Tests
// =============================================================================

#[test]
fn training_tests_test_uniform_policy() {
    let policy = UniformPolicy::new(5);
    let state = EncodedState::zeros(vec![10]);
    let probs = policy.predict(&state);

    assert_eq!(probs.len(), 5);
    assert!((probs.iter().sum::<f32>() - 1.0).abs() < 0.001);
}

#[test]
fn training_tests_test_uniform_policy_zero_value() {
    let network = UniformPolicyZeroValue::new(10, 2);
    let state = EncodedState::zeros(vec![20]);
    let (policy, value) = network.predict(&state);

    assert_eq!(policy.len(), 10);
    assert_eq!(value.len(), 2);
    assert!((policy.iter().sum::<f32>() - 1.0).abs() < 0.001);
    assert!(value.iter().into_iter().all(|&v| v == 0.0));
}

// =============================================================================
// Trajectory Tests
// =============================================================================

#[test]
fn training_tests_test_trajectory_creation() {
    let traj = new_trajectory(42, 2);
    assert!(traj.is_empty());
    assert_eq!(traj.seed, 42);
}

#[test]
fn test_trajectory_with_steps() {
    let mut traj = new_trajectory(42, 2);

    let action = Action::new(TemplateId::new(0));
    let step = Step::new(
        EncodedState::zeros(vec![10]),
        vec![(action.clone(), 1.0)],
        action,
        PlayerId::new(0),
        0,
    );

    traj.push(step);
    assert_eq!(traj.len(), 1);
}

#[test]
fn test_trajectory_to_samples() {
    let mut traj = new_trajectory(42, 2);

    let action = Action::new(TemplateId::new(0));
    let step = Step::new(
        EncodedState::zeros(vec![10]),
        vec![(action.clone(), 1.0)],
        action,
        PlayerId::new(0),
        0,
    );

    traj.push(step);

    // Set outcome
    let mut outcome = PlayerMap::with_value(2, 0.0);
    *outcome.get_mut(PlayerId::new(0)) = 1.0;
    traj.set_outcome(outcome);

    let samples = to_training_samples(&traj);
    assert_eq!(samples.len(), 1);
    assert_eq!(samples[0].value, 1.0);
}

// =============================================================================
// Experience Buffer Tests
// =============================================================================

#[test]
fn training_tests_test_experience_buffer_capacity() {
    let mut buffer = ExperienceBuffer::<GameTrajectory>::new(3);

    for i in 0..5 {
        buffer.push(new_trajectory(i, 2));
    }

    // Should only have 3 trajectories
    assert_eq!(buffer.len(), 3);

    // Should have the most recent ones (2, 3, 4)
    let seeds: Vec<_> = buffer.iter().into_iter().map(|t| t.seed).collect();
    assert!(seeds.contains(&2));
    assert!(seeds.contains(&3));
    assert!(seeds.contains(&4));
}

#[test]
fn test_experience_buffer_sampling() {
    let mut buffer = ExperienceBuffer::<GameTrajectory>::new(10);

    let action = Action::new(TemplateId::new(0));
    let mut traj = new_trajectory(42, 2);

    for i in 0..5 {
        let step = Step::new(
            EncodedState::zeros(vec![10]),
            vec![(action.clone(), 1.0)],
            action.clone(),
            PlayerId::new(0),
            i,
        );
        traj.push(step);
    }

    buffer.push(traj);

    let samples = sample_batch(&buffer, 3, 123);
    assert_eq!(samples.len(), 3);
}

// =============================================================================
// Self-Play Tests
// =============================================================================

#[test]
fn test_self_play_config() {
    let config = SelfPlayConfig::default()
        .with_mcts_iterations(100)
        .with_temperature(0.5)
        .with_temperature_threshold(20);

    assert_eq!(config.mcts_iterations, 100);
    assert_eq!(config.temperature, 0.5);
    assert_eq!(config.temperature_threshold, 20);
}

#[test]
fn test_self_play_generates_trajectory() {
    let (engine, mut state) = SimpleGameBuilder::new()
        .player_count(2)
        .starting_life(3) // Low life for quick game
        .build(42);

    let encoder = Box::new(SimpleGameEncoder::new(2, 10));
    let config = SelfPlayConfig::default()
        .with_mcts_iterations(10)
        .with_max_moves(30);

    let worker = FloatWorker::new(engine, encoder, config);
    let trajectory = worker.play_game(&mut state, 42);

    // Should have recorded some steps
    assert!(!trajectory.is_empty());

    // Each step should have valid data
    for step in &trajectory.steps {
        assert!(!step.encoded_state.is_empty());
        assert!(!step.action_probs.is_empty());
    }
}

#[test]
fn test_self_play_with_network() {
    let (engine, mut state) = SimpleGameBuilder::new()
        .player_count(2)
        .starting_life(3)
        .build(42);

    let encoder = Box::new(SimpleGameEncoder::new(2, 10));
    let config = SelfPlayConfig::default()
        .with_mcts_iterations(10)
        .with_max_moves(30);

    let worker = FloatWorker::new(engine, encoder, config);
    let network = UniformPolicyZeroValue::new(10, 2);

    let trajectory = worker.play_game_with_network(&mut state, 42, &network);

    assert!(!trajectory.is_empty());
}

#[test]
fn test_self_play_multiple_games() {
    let config = SelfPlayConfig::default()
        .with_mcts_iterations(5)
        .with_max_moves(20);

    let encoder = Box::new(SimpleGameEncoder::new(2, 10));
    let (template_engine, _) = SimpleGameBuilder::new()
        .player_count(2)
        .starting_life(2)
        .build(0);

    let worker = FloatWorker::new(template_engine, encoder, config);

    let trajectories = worker.play_games(
        |seed| {
            SimpleGameBuilder::new()
                .player_count(2)
                .starting_life(2)
                .build(seed)
        },
        3,
    );

    assert_eq!(trajectories.len(), 3);

    // Each game should have produced a trajectory
    for traj in &trajectories {
        assert!(!traj.is_empty());
    }
}

// =============================================================================
// MCTS Integration Tests
// =============================================================================

#[test]
fn test_mcts_set_root_priors() {
    let (game, mut state) = SimpleGameBuilder::new()
        .player_count(2)
        .starting_life(20)
        .build(42);

    let config = MCTSConfig::default();
    let mut search = FloatSearch::new(game, config);

    // Run a small search to initialize the tree
    search.search(&mut state, PlayerId::new(0), 10);

    // Get actions from root
    let actions: Vec<_> = search.action_visits().into_iter().map(|(a, _)| a).collect();

    // Set priors
    let priors: Vec<_> = actions.iter().into_iter().map(|a| (a.clone(), 0.5f32)).collect();
    let updated = search.set_root_priors(&priors);

    assert_eq!(updated, actions.len());

    // Verify priors were set
    let root_priors = search.root_priors();
    assert!(root_priors.iter().into_iter().all(|(_, p)| (*p - 0.5).abs() < 0.01));
}

#[test]
fn test_training_pipeline_integration() {
    // Full pipeline: self-play -> trajectory -> buffer -> samples

    // 1. Set up self-play
    let (engine, mut state) = SimpleGameBuilder::new()
        .player_count(2)
        .starting_life(2)
        .build(42);

    let encoder = Box::new(SimpleGameEncoder::new(2, 10));
    let config = SelfPlayConfig::default()
        .with_mcts_iterations(5)
        .with_max_moves(20);

    let worker = FloatWorker::new(engine, encoder, config);

    // 2. Generate trajectory
    let trajectory = worker.play_game(&mut state, 42);
    assert!(!trajectory.is_empty());

    // 3. Add to buffer
    let mut buffer = ExperienceBuffer::<GameTrajectory>::new(100);
    buffer.push(trajectory);

    assert_eq!(buffer.len(), 1);

    // 4. Sample batch
    let samples = sample_batch(&buffer, 5, 123);

    // Verify samples
    for sample in &samples {
        assert!(!sample.state.is_empty());
        assert!(!sample.policy.is_empty());
    }
}

#[test]
fn test_zero_encoder_properties() {
    let encoder = ZeroEncoder::new(vec![5, 5], 25, 4);

    assert_eq!(encoder.output_shape(), vec![5, 5]);
    assert_eq!(encoder.action_space_size(), 25);
    assert_eq!(encoder.player_count(), 4);
}
