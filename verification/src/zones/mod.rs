//! Zones: where every card is.

pub mod manager;

pub use crate::base::config::{ZoneConfig, ZoneId, ZoneVisibility};
pub use manager::{ZoneManager, ZonePosition, ZoneView};
