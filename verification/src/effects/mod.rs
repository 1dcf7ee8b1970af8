//! Effects: the atomic changes that cards and abilities make to a game.

pub mod effect;
pub mod resolver;
pub mod targeting;

pub use effect::{Effect, EffectBatch, EffectEntry, EffectView};
pub use resolver::{EffectResolver, ResolveResult, ResolverContext, SharedZones};
pub use targeting::{TargetCount, TargetFilter, TargetSelector, TargetSpec, TargetType};
