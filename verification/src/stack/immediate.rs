//! Immediate resolution: whatever is queued resolves at the next step,
//! and no player gets to respond.

use super::{is_trigger_batch, trigger_batch, ResolutionStatus, ResolutionSystem};
use crate::base::action::Action;
use crate::base::player::PlayerId;
use crate::base::state::{GameState, GameStateView};
use crate::effects::effect::EffectBatch;
use crate::effects::resolver::{entries_run, EffectResolver, ResolveResult, ResolverContext};
use crate::triggers::registry::TriggeredEffect;
use vstd::prelude::*;

verus! {

/// A batch that waits to be resolved, and who controls it.
#[derive(Clone, Debug)]
pub struct PendingEffect {
    pub effects: EffectBatch,
    pub controller: PlayerId,
}

/// The immediate resolution system.
#[derive(Clone, Debug)]
pub struct ImmediateResolution {
    pending: Vec<PendingEffect>,
}

impl View for ImmediateResolution {
    type V = Seq<PendingEffect>;

    closed spec fn view(&self) -> Seq<PendingEffect> {
        self.pending@
    }
}

/// Marks the state that a drain went through.
/// It holds of everything: it only gives the prover a term to find the
/// values by.
pub open spec fn drained_to(state: GameStateView, results: Seq<ResolveResult>) -> bool {
    true
}

/// Resolving the last `done` of the pending batches, the last one first,
/// can lead from `pre` to `mid`.
pub open spec fn drains<C: ResolverContext>(
    context: &C,
    pre: GameStateView, pending: Seq<PendingEffect>, done: int, mid: GameStateView) -> bool
    decreases done,
{
    if done <= 0 || done > pending.len() {
        mid == pre
    } else {
        exists|before: GameStateView, results: Seq<ResolveResult>| #[trigger]
            drained_to(before, results) && drains(context, pre, pending, done - 1, before) && entries_run(context, before,
                pending[pending.len() - done].effects@,
                pending[pending.len() - done].effects@.len() as int,
                mid,
                results,
            )
    }
}

impl ImmediateResolution {
    /// A system with nothing queued.
    pub fn new() -> (system: Self)
        ensures
            system@.len() == 0,
    {
        ImmediateResolution { pending: Vec::new() }
    }

    /// The number of batches that wait.
    pub fn pending_count(&self) -> (count: usize)
        ensures
            count == self@.len(),
    {
        self.pending.len()
    }
}

impl Default for ImmediateResolution {
    fn default() -> (system: Self)
        ensures
            system@.len() == 0,
    {
        ImmediateResolution::new()
    }
}

impl ResolutionSystem for ImmediateResolution {
    /// Queues the effects of an action, unless there are none.
    fn queue_action(&mut self, source_action: Action, effects: EffectBatch, controller: PlayerId)
        ensures
            final(self)@ == (if effects@.len() == 0 {
                old(self)@
            } else {
                old(self)@.push(PendingEffect { effects, controller })
            }),
    {
        if !effects.is_empty() {
            self.pending.push(PendingEffect { effects, controller });
        }
    }

    /// Queues what a trigger proposes, unless it proposes nothing: one
    /// batch with an entry for each effect, aimed at the trigger's
    /// controller. A trigger without a controller counts as player 0's.
    fn queue_triggered(&mut self, triggered: TriggeredEffect)
        ensures
            triggered.effects@.len() == 0 ==> final(self)@ == old(self)@,
            triggered.effects@.len() > 0 ==> final(self)@.len() == old(self)@.len() + 1 && final(self)@.drop_last() == old(self)@ && is_trigger_batch(
                final(self)@.last().effects@,
                triggered.effects@,
                triggered.controller,
            ) && final(self)@.last().controller == (match triggered.controller {
                Some(player) => player,
                None => PlayerId(0),
            }),
    {
        if triggered.effects.len() > 0 {
            let controller = match triggered.controller {
                Some(player) => player,
                None => PlayerId::new(0),
            };
            let batch = trigger_batch(triggered.effects, triggered.controller);
            self.pending.push(PendingEffect { effects: batch, controller });
            assert(self@.drop_last() =~= old(self)@);
        }
    }

    /// Resolves every pending batch, the last one queued first, and is
    /// complete.
    fn process<C: ResolverContext>(&mut self, state: &mut GameState, context: &C) -> (status:
        ResolutionStatus)
        ensures
            status == ResolutionStatus::Complete,
            final(self)@.len() == 0,
            drains(context, old(state)@, old(self)@, old(self)@.len() as int, final(state)@),
    {
        let ghost all = self@;
        let ghost mut done: int = 0;
        while self.pending.len() > 0
            invariant
                state@.wf(),
                old(state)@.cards_placed() ==> state@.cards_placed(),
                old(state)@.hands_consistent() ==> state@.hands_consistent(),
                0 <= done,
                done + self.pending@.len() == all.len(),
                self.pending@ == all.take(self.pending@.len() as int),
                drains(context, old(state)@, all, done, state@),
            decreases self.pending@.len(),
        {
            let ghost before = state@;
            match self.pending.pop() {
                Some(pending) => {
                    let results = EffectResolver::resolve_batch(state, &pending.effects, context);
                    proof {
                        assert(self.pending@ =~= all.take(self.pending@.len() as int));
                        assert(pending == all[all.len() - (done + 1)]);
                        assert(drained_to(before, results@));
                        lemma_drains_step(context, old(state)@, all, done, before, state@, results@);
                        done = done + 1;
                    }
                },
                None => {},
            }
        }
        ResolutionStatus::Complete
    }

    /// Whether nothing waits.
    fn is_complete(&self) -> (complete: bool)
        ensures
            complete == (self@.len() == 0),
    {
        self.pending.len() == 0
    }

    /// No one: this system never waits for a player.
    fn priority_player(&self) -> (player: Option<PlayerId>)
        ensures
            player is None,
    {
        None
    }

    /// Drops every pending batch.
    fn clear(&mut self)
        ensures
            final(self)@.len() == 0,
    {
        self.pending.clear();
    }
}

/// One more batch resolved extends a drain.
pub proof fn lemma_drains_step<C: ResolverContext>(
    context: &C,
    pre: GameStateView,
    pending: Seq<PendingEffect>,
    done: int,
    before: GameStateView,
    mid: GameStateView,
    results: Seq<ResolveResult>,
)
    requires
        0 <= done < pending.len(),
        drains(context, pre, pending, done, before),
        entries_run(context, before,
            pending[pending.len() - (done + 1)].effects@,
            pending[pending.len() - (done + 1)].effects@.len() as int,
            mid,
            results,
        ),
    ensures
        drains(context, pre, pending, done + 1, mid),
{
    reveal_with_fuel(drains, 2);
    assert(drained_to(before, results));
}

} // verus!
