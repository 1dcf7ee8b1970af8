//! How queued effects get resolved.
//!
//! Two systems share one contract. The immediate system resolves
//! everything at once. The priority stack lets players respond: effects
//! wait on a stack until every player has passed, and the last one in is
//! the first one out.

pub mod immediate;
pub mod priority;

pub use immediate::{ImmediateResolution, PendingEffect};
pub use priority::{PriorityStack, StackEntry, StackEntryId, StackSource, StackView};

use crate::base::action::Action;
use crate::base::player::PlayerId;
use crate::base::state::GameState;
use crate::effects::effect::{Effect, EffectBatch, EffectEntry};
use crate::effects::resolver::ResolverContext;
use crate::triggers::registry::TriggeredEffect;
use crate::base::entity::EntityId;
use vstd::prelude::*;

verus! {

/// Where a resolution system stands after a step.
#[derive(Clone, Copy, Debug, PartialEq, Eq, Structural)]
pub enum ResolutionStatus {
    /// Nothing is left to resolve.
    Complete,
    /// A player has to pass or respond before anything resolves.
    WaitingForPriority(PlayerId),
    /// Something was resolved and more is left.
    Processing,
}

/// A system that takes effects in and resolves them.
pub trait ResolutionSystem {
    /// Takes in the effects of a game action.
    fn queue_action(&mut self, source_action: Action, effects: EffectBatch, controller: PlayerId);

    /// Takes in what a trigger proposes.
    fn queue_triggered(&mut self, triggered: TriggeredEffect);

    /// Resolves what can be resolved now.
    fn process<C: ResolverContext>(&mut self, state: &mut GameState, context: &C) -> (status:
        ResolutionStatus)
        requires
            old(state)@.wf(),
        ensures
            final(state)@.wf(),
            old(state)@.cards_placed() ==> final(state)@.cards_placed(),
            old(state)@.hands_consistent() ==> final(state)@.hands_consistent(),
    ;

    /// Whether nothing is left to resolve.
    fn is_complete(&self) -> bool;

    /// The player who has to pass or respond, if any.
    fn priority_player(&self) -> Option<PlayerId>;

    /// Drops everything that is waiting.
    fn clear(&mut self);
}

/// Whether a batch is what a trigger's effects become when they are
/// queued: one entry for each effect, in order, aimed at the trigger's
/// controller, or without a target where it has none.
pub open spec fn is_trigger_batch(
    batch: Seq<EffectEntry>,
    effects: Seq<Effect>,
    controller: Option<PlayerId>,
) -> bool {
    &&& batch.len() == effects.len()
    &&& forall|i: int|
        0 <= i < batch.len() ==> (#[trigger] batch[i]).effect == effects[i] && batch[i].targets@
            == (match controller {
            Some(player) => seq![EntityId(player.0 as u32)],
            None => Seq::<EntityId>::empty(),
        })
}

/// The batch that a trigger's effects become when they are queued.
pub fn trigger_batch(effects: Vec<Effect>, controller: Option<PlayerId>) -> (batch: EffectBatch)
    ensures
        is_trigger_batch(batch@, effects@, controller),
{
    let mut effects = effects;
    let ghost all = effects@;
    let mut batch = EffectBatch::new();
    while effects.len() > 0
        invariant
            batch@.len() + effects@.len() == all.len(),
            effects@ == all.skip(batch@.len() as int),
            is_trigger_batch(batch@, all.take(batch@.len() as int), controller),
        decreases effects@.len(),
    {
        let ghost before = batch@;
        let effect = effects.remove(0);
        match controller {
            Some(player) => batch.add_player(effect, player),
            None => batch.add_zone(effect),
        }
        proof {
            assert(effects@ =~= all.skip(batch@.len() as int));
            assert forall|i: int| 0 <= i < batch@.len() implies (#[trigger] batch@[i]).effect
                == all.take(batch@.len() as int)[i] && batch@[i].targets@ == (match controller {
                Some(player) => seq![EntityId(player.0 as u32)],
                None => Seq::<EntityId>::empty(),
            }) by {
                if i < before.len() {
                    assert(batch@.drop_last()[i] == before[i]);
                    assert(all.take(before.len() as int)[i] == all[i]);
                }
            }
        }
    }
    proof {
        assert(all.take(all.len() as int) =~= all);
    }
    batch
}

} // verus!
