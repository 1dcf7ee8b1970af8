//! Triggers: abilities that listen for events and propose effects.

pub mod condition;
pub mod event;
pub mod registry;

pub use condition::{ConditionContext, ConditionEvaluator, CustomConditions, TriggerCondition};
pub use event::{EventTypeConfig, EventTypeId, GameEvent};
pub use registry::{
    RegistryView, Trigger, TriggerId, TriggerRegistry, TriggerTiming, TriggeredEffect,
};
