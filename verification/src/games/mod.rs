//! Sample games built on the engine.

pub mod simple;

pub use simple::{PlayerZones, SimpleGame, SimpleGameBuilder, Templates};
