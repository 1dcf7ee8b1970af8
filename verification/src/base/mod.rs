//! Identifiers, per-player storage and configuration shared by every game.

pub mod action;
pub mod config;
pub mod entity;
pub mod player;
pub mod rng;
pub mod state;
pub mod text;

pub use action::{Action, ActionRecord, PointerList};
pub use config::{
    GameConfig, PhaseId, TemplateConfig, TemplateId, ZoneConfig, ZoneId, ZoneVisibility,
};
pub use entity::EntityId;
pub use player::{PlayerId, PlayerMap};
pub use rng::{GameRng, GameRngState};
pub use state::{GameState, GameStateView, PublicState, PublicStateView};
