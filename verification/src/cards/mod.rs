//! Cards: what a card is (its definition) and one card in one game (its
//! instance).

pub mod attributes;
pub mod definition;
pub mod instance;
pub mod registry;

pub use attributes::{AttributeKey, AttributeValue, Attributes};
pub use definition::{CardDefinition, CardId, CardTypeId};
pub use instance::CardInstance;
pub use registry::CardRegistry;
