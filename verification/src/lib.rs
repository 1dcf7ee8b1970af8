//! A game-agnostic card-game engine core with a Public-State Monte Carlo
//! Tree Search, written for verification with Verus.
//!
//! Zones, phases, card types, event kinds and action templates are opaque
//! identifiers that a game assigns; the engine never interprets them.
//!
//! - `base`: identifiers, per-player maps, configuration, actions, the
//!   deterministic generator and the game state
//! - `maps`: the hash maps the engine keeps its entities and values in
//! - `zones`: where every card is, and in what order
//! - `cards`: card definitions, card instances and the card registry
//! - `effects`: effects, targeting and the effect resolver
//! - `triggers`: events, trigger conditions and the trigger registry
//! - `stack`: immediate resolution and the priority stack
//! - `rules`: what a game has to tell the engine
//! - `mcts`: the search tree and the search
//! - `training`: self-play records and the experience buffer
//! - `games`: a small game for trying the engine out

pub mod base;
pub mod cards;
pub mod effects;
pub mod games;
pub mod maps;
pub mod mcts;
pub mod rules;
pub mod stack;
pub mod training;
pub mod triggers;
pub mod zones;

pub use crate::base::{
    Action, ActionRecord, EntityId, GameConfig, GameRng, GameRngState, GameState, PhaseId,
    PlayerId, PlayerMap, PublicState, TemplateConfig, TemplateId, ZoneConfig, ZoneId,
    ZoneVisibility,
};
pub use crate::cards::{
    AttributeKey, AttributeValue, Attributes, CardDefinition, CardId, CardInstance, CardRegistry,
    CardTypeId,
};
pub use crate::effects::{
    Effect, EffectBatch, EffectResolver, ResolveResult, ResolverContext, TargetFilter,
    TargetSelector, TargetSpec,
};
pub use crate::mcts::{
    Edge, MCTSNode, MCTSSearch, MCTSTree, NodeId, OpponentPolicy, RandomSimulation, RewardModel,
    SearchLimits, SearchStats, SelectionPolicy, SimulationPolicy, TreeStats, UniformOpponent,
};
pub use crate::rules::{ActionEnumeration, GameResult, RulesEngine};
pub use crate::stack::{
    ImmediateResolution, PriorityStack, ResolutionStatus, ResolutionSystem, StackEntry,
    StackEntryId, StackSource,
};
pub use crate::training::{ExperienceBuffer, MoveChooser, SelfPlayWorker, Trajectory};
pub use crate::triggers::{
    ConditionContext, ConditionEvaluator, CustomConditions, EventTypeConfig, EventTypeId,
    GameEvent, Trigger, TriggerCondition, TriggerId, TriggerRegistry, TriggerTiming,
    TriggeredEffect,
};
pub use crate::zones::{ZoneManager, ZonePosition};
