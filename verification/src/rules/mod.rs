//! What a game has to tell the engine.

pub mod engine;

pub use engine::{ActionEnumeration, GameResult, GameResultView, RulesEngine};
