//! The priority stack.
//!
//! Effects wait on a stack. The player with priority may respond, which
//! puts more on the stack, or pass. When every player has passed in turn,
//! the top of the stack resolves: last in, first out. Triggers that fire
//! meanwhile wait aside and go onto the stack together, by identifier.

use super::{is_trigger_batch, trigger_batch, ResolutionStatus, ResolutionSystem};
use crate::base::action::Action;
use crate::base::player::PlayerId;
use crate::base::state::{GameState, GameStateView};
use crate::effects::effect::EffectBatch;
use crate::effects::resolver::{entries_run, EffectResolver, ResolveResult, ResolverContext};
use crate::triggers::event::GameEvent;
use crate::triggers::registry::{TriggerId, TriggeredEffect};
use vstd::prelude::*;

verus! {

/// Identifier of an entry of the stack.
#[derive(Clone, Copy, Debug, PartialEq, Eq, Hash, Structural)]
pub struct StackEntryId(pub u32);

impl StackEntryId {
    /// The identifier as text.
    pub fn to_string(&self) -> (text: String)
        ensures
            text@ == "StackEntry("@ + crate::base::text::decimal(self.0 as nat) + ")"@,
    {
        crate::base::text::labelled("StackEntry(", self.0 as u64, ")")
    }

    /// A stack entry identifier.
    pub fn new(id: u32) -> (entry: Self)
        ensures
            entry.0 == id,
    {
        StackEntryId(id)
    }

    /// The raw number.
    pub fn raw(self) -> (raw: u32)
        ensures
            raw == self.0,
    {
        self.0
    }
}

/// Where an entry of the stack came from.
#[derive(Clone, Debug)]
pub enum StackSource {
    /// A game action.
    Action(Action),
    /// A trigger that fired on an event.
    Triggered { trigger_id: TriggerId, event: GameEvent },
    /// A response to what was on the stack.
    Response { description: String },
}

/// Effects that wait on the stack.
#[derive(Clone, Debug)]
pub struct StackEntry {
    pub id: StackEntryId,
    pub effects: EffectBatch,
    pub controller: PlayerId,
    pub source: StackSource,
}

/// The stack as plain values.
pub struct StackView {
    /// The entries, the bottom first.
    pub entries: Seq<StackEntry>,
    /// What fired and waits to go onto the stack.
    pub pending_triggers: Seq<TriggeredEffect>,
    /// The player who may act.
    pub current_priority: PlayerId,
    /// How many players passed in a row.
    pub consecutive_passes: usize,
    /// The number of players.
    pub player_count: usize,
    /// The identifier of the next entry.
    pub next_id: u32,
}

/// The stack of a game in which players may respond.
#[derive(Clone, Debug)]
pub struct PriorityStack {
    entries: Vec<StackEntry>,
    pending_triggers: Vec<TriggeredEffect>,
    current_priority: PlayerId,
    consecutive_passes: usize,
    player_count: usize,
    next_id: u32,
}

impl View for PriorityStack {
    type V = StackView;

    closed spec fn view(&self) -> StackView {
        StackView {
            entries: self.entries@,
            pending_triggers: self.pending_triggers@,
            current_priority: self.current_priority,
            consecutive_passes: self.consecutive_passes,
            player_count: self.player_count,
            next_id: self.next_id,
        }
    }
}

/// `at` is where a trigger with this identifier goes among sorted ones:
/// behind every one whose identifier is no greater.
pub open spec fn goes_at(sorted: Seq<TriggeredEffect>, id: u32, at: int) -> bool {
    &&& 0 <= at <= sorted.len()
    &&& forall|i: int| 0 <= i < at ==> (#[trigger] sorted[i]).trigger_id.0 <= id
    &&& at < sorted.len() ==> sorted[at].trigger_id.0 > id
}

/// Sorted triggers with one more put in its place.
pub open spec fn put_in_place(sorted: Seq<TriggeredEffect>, triggered: TriggeredEffect) -> Seq<
    TriggeredEffect,
> {
    sorted.insert(choose|at: int| goes_at(sorted, triggered.trigger_id.0, at), triggered)
}

/// The triggers by identifier, lowest first; triggers with one identifier
/// stay in the order they came in.
pub open spec fn by_trigger_id(pending: Seq<TriggeredEffect>) -> Seq<TriggeredEffect>
    decreases pending.len(),
{
    if pending.len() == 0 {
        pending
    } else {
        put_in_place(by_trigger_id(pending.drop_last()), pending.last())
    }
}

/// The identifier after an identifier; after the last one the
/// identifiers start over.
pub open spec fn id_after(id: u32) -> u32 {
    if id == u32::MAX {
        0
    } else {
        (id + 1) as u32
    }
}

/// The identifier `steps` after an identifier.
pub open spec fn id_ahead(id: u32, steps: nat) -> u32
    decreases steps,
{
    if steps == 0 {
        id
    } else {
        id_after(id_ahead(id, (steps - 1) as nat))
    }
}

/// The identifier after an identifier.
fn next_entry_id(id: u32) -> (next: u32)
    ensures
        next == id_after(id),
{
    if id == u32::MAX {
        0
    } else {
        id + 1
    }
}

/// Whether an entry is what a trigger becomes on the stack under an
/// identifier. A trigger without a controller counts as player 0's.
pub open spec fn is_trigger_entry(entry: StackEntry, triggered: TriggeredEffect, id: u32) -> bool {
    &&& entry.id.0 == id
    &&& entry.controller == (match triggered.controller {
        Some(player) => player,
        None => PlayerId(0),
    })
    &&& entry.source matches StackSource::Triggered { trigger_id, event } && trigger_id
        == triggered.trigger_id && event == triggered.triggering_event
    &&& is_trigger_batch(entry.effects@, triggered.effects@, triggered.controller)
}

impl StackView {
    /// Whether nothing is on the stack and nothing waits to go onto it.
    pub open spec fn is_empty(self) -> bool {
        self.entries.len() == 0 && self.pending_triggers.len() == 0
    }

    /// The player after the one with priority, in index order.
    pub open spec fn next_player(self) -> PlayerId {
        PlayerId((((self.current_priority.0 as int + 1) % (self.player_count as int)) % 256) as u8)
    }

    /// The stack with one more entry on top, whose controller gets
    /// priority; the passes start over.
    pub open spec fn with_entry(self, entry: StackEntry) -> StackView {
        StackView {
            entries: self.entries.push(entry),
            current_priority: entry.controller,
            consecutive_passes: 0,
            next_id: id_after(self.next_id),
            ..self
        }
    }

    /// Whether `flushed` is this stack after its pending triggers went
    /// onto it: by identifier, numbered on from the next identifier, the
    /// passes starting over. Nothing changes where no trigger waits.
    pub open spec fn flushes_to(self, flushed: StackView) -> bool {
        if self.pending_triggers.len() == 0 {
            flushed == self
        } else {
            let sorted = by_trigger_id(self.pending_triggers);
            &&& flushed.pending_triggers.len() == 0
            &&& flushed.current_priority == self.current_priority
            &&& flushed.player_count == self.player_count
            &&& flushed.consecutive_passes == 0
            &&& flushed.next_id == id_ahead(self.next_id, sorted.len())
            &&& flushed.entries.len() == self.entries.len() + sorted.len()
            &&& forall|i: int| 0 <= i < self.entries.len() ==> #[trigger] flushed.entries[i] == self.entries[i]
            &&& forall|k: int|
                0 <= k < sorted.len() ==> is_trigger_entry(
                    #[trigger] flushed.entries[self.entries.len() + k],
                    sorted[k],
                    id_ahead(self.next_id, k as nat),
                )
        }
    }
}

/// Puts a trigger in its place among sorted ones.
fn insert_by_id(sorted: &mut Vec<TriggeredEffect>, triggered: TriggeredEffect)
    ensures
        final(sorted)@ == put_in_place(old(sorted)@, triggered),
        final(sorted)@.len() == old(sorted)@.len() + 1,
{
    let mut at: usize = 0;
    while at < sorted.len() && sorted[at].trigger_id.0 <= triggered.trigger_id.0
        invariant
            at <= sorted@.len(),
            sorted@ == old(sorted)@,
            forall|i: int| 0 <= i < at ==> (#[trigger] sorted@[i]).trigger_id.0 <= triggered.trigger_id.0,
        decreases sorted@.len() - at,
    {
        at = at + 1;
    }
    proof {
        let id = triggered.trigger_id.0;
        assert(goes_at(sorted@, id, at as int));
        let chosen = choose|p: int| goes_at(sorted@, id, p);
        assert(goes_at(sorted@, id, chosen));
        if chosen < at {
            assert(sorted@[chosen].trigger_id.0 <= id);
        } else if chosen > at {
            assert(sorted@[at as int].trigger_id.0 <= id);
        }
    }
    sorted.insert(at, triggered);
}

impl PriorityStack {
    /// An empty stack for a game of `player_count` players; player 0 has
    /// priority.
    pub fn new(player_count: usize) -> (stack: Self)
        ensures
            stack@ == (StackView {
                entries: Seq::empty(),
                pending_triggers: Seq::empty(),
                current_priority: PlayerId(0),
                consecutive_passes: 0,
                player_count,
                next_id: 0,
            }),
    {
        PriorityStack {
            entries: Vec::new(),
            pending_triggers: Vec::new(),
            current_priority: PlayerId::new(0),
            consecutive_passes: 0,
            player_count,
            next_id: 0,
        }
    }

    /// An empty stack on which the given player has priority.
    pub fn with_priority(player_count: usize, starting_priority: PlayerId) -> (stack: Self)
        ensures
            stack@ == (StackView {
                entries: Seq::empty(),
                pending_triggers: Seq::empty(),
                current_priority: starting_priority,
                consecutive_passes: 0,
                player_count,
                next_id: 0,
            }),
    {
        PriorityStack {
            entries: Vec::new(),
            pending_triggers: Vec::new(),
            current_priority: starting_priority,
            consecutive_passes: 0,
            player_count,
            next_id: 0,
        }
    }

    /// The number of entries on the stack.
    pub fn stack_size(&self) -> (size: usize)
        ensures
            size == self@.entries.len(),
    {
        self.entries.len()
    }

    /// The number of triggers that wait to go onto the stack.
    pub fn pending_count(&self) -> (count: usize)
        ensures
            count == self@.pending_triggers.len(),
    {
        self.pending_triggers.len()
    }

    /// The top of the stack, if it has one.
    pub fn peek_top(&self) -> (top: Option<&StackEntry>)
        ensures
            top == (if self@.entries.len() > 0 {
                Some(&self@.entries.last())
            } else {
                None
            }),
    {
        if self.entries.len() > 0 {
            Some(&self.entries[self.entries.len() - 1])
        } else {
            None
        }
    }

    /// The entries, the bottom first.
    pub fn entries(&self) -> (entries: &[StackEntry])
        ensures
            entries@ == self@.entries,
    {
        self.entries.as_slice()
    }

    /// A player passes. Only the player with priority can: a pass by
    /// anyone else is refused and changes nothing. The result says whether
    /// every player has passed, so that the top of the stack is ready to
    /// resolve; if not, priority goes to the next player in index order.
    pub fn pass(&mut self, player: PlayerId) -> (ready: bool)
        requires
            old(self)@.consecutive_passes < usize::MAX,
        ensures
            player != old(self)@.current_priority ==> !ready && final(self)@ == old(self)@,
            player == old(self)@.current_priority ==> ready == (old(self)@.consecutive_passes + 1
                >= old(self)@.player_count) && final(self)@ == (StackView {
                consecutive_passes: (old(self)@.consecutive_passes + 1) as usize,
                current_priority: if ready {
                    old(self)@.current_priority
                } else {
                    old(self)@.next_player()
                },
                ..old(self)@
            }),
    {
        if player != self.current_priority {
            return false;
        }
        self.consecutive_passes = self.consecutive_passes + 1;
        if self.consecutive_passes >= self.player_count {
            true
        } else {
            self.advance_priority();
            false
        }
    }

    /// Responds with effects: they go on top of the stack, the passes
    /// start over, and the responder gets priority.
    pub fn respond(&mut self, effects: EffectBatch, controller: PlayerId, description: String)
        ensures
            final(self)@ == old(self)@.with_entry(
                StackEntry {
                    id: StackEntryId(old(self)@.next_id),
                    effects,
                    controller,
                    source: StackSource::Response { description },
                },
            ),
    {
        let id = StackEntryId::new(self.next_id);
        self.next_id = next_entry_id(self.next_id);
        self.entries.push(
            StackEntry { id, effects, controller, source: StackSource::Response { description } },
        );
        self.consecutive_passes = 0;
        self.current_priority = controller;
    }

    /// Puts the triggers that wait onto the stack, by identifier, lowest
    /// first and so lowest undermost; the passes start over.
    pub fn flush_triggers(&mut self)
        ensures
            old(self)@.flushes_to(final(self)@),
    {
        if self.pending_triggers.len() == 0 {
            return ;
        }
        let mut waiting: Vec<TriggeredEffect> = Vec::new();
        std::mem::swap(&mut self.pending_triggers, &mut waiting);
        let ghost all = waiting@;
        let mut sorted: Vec<TriggeredEffect> = Vec::new();
        let ghost mut taken: int = 0;
        while waiting.len() > 0
            invariant
                0 <= taken,
                taken + waiting@.len() == all.len(),
                waiting@ == all.skip(taken),
                sorted@ == by_trigger_id(all.take(taken)),
                sorted@.len() == taken,
            decreases waiting@.len(),
        {
            let triggered = waiting.remove(0);
            proof {
                assert(triggered == all[taken]);
                assert(all.take(taken + 1).drop_last() =~= all.take(taken));
                assert(all.take(taken + 1).last() == triggered);
                assert(waiting@ =~= all.skip(taken + 1));
            }
            insert_by_id(&mut sorted, triggered);
            proof {
                taken = taken + 1;
            }
        }
        proof {
            assert(all.take(all.len() as int) =~= all);
        }
        let ghost in_order = sorted@;
        let ghost start = self.entries@;
        let ghost mut pushed: int = 0;
        while sorted.len() > 0
            invariant
                0 <= pushed,
                pushed + sorted@.len() == in_order.len(),
                sorted@ == in_order.skip(pushed),
                self.next_id == id_ahead(old(self)@.next_id, pushed as nat),
                self.current_priority == old(self)@.current_priority,
                self.player_count == old(self)@.player_count,
                self.pending_triggers@.len() == 0,
                self.entries@.len() == start.len() + pushed,
                forall|i: int| 0 <= i < start.len() ==> #[trigger] self.entries@[i] == start[i],
                forall|k: int|
                    0 <= k < pushed ==> is_trigger_entry(
                        #[trigger] self.entries@[start.len() + k],
                        in_order[k],
                        id_ahead(old(self)@.next_id, k as nat),
                    ),
            decreases sorted@.len(),
        {
            let triggered = sorted.remove(0);
            proof {
                assert(triggered == in_order[pushed]);
                assert(sorted@ =~= in_order.skip(pushed + 1));
            }
            let id = StackEntryId::new(self.next_id);
            self.next_id = next_entry_id(self.next_id);
            let controller = match triggered.controller {
                Some(player) => player,
                None => PlayerId::new(0),
            };
            let batch = trigger_batch(triggered.effects, triggered.controller);
            self.entries.push(
                StackEntry {
                    id,
                    effects: batch,
                    controller,
                    source: StackSource::Triggered {
                        trigger_id: triggered.trigger_id,
                        event: triggered.triggering_event,
                    },
                },
            );
            proof {
                pushed = pushed + 1;
            }
        }
        self.consecutive_passes = 0;
    }

    /// Takes the top of the stack off and resolves it; its controller gets
    /// priority and the passes start over.
    fn resolve_top<C: ResolverContext>(&mut self, state: &mut GameState, context: &C) -> (resolved:
        Option<StackEntry>)
        requires
            old(state)@.wf(),
        ensures
            final(state)@.wf(),
            old(state)@.cards_placed() ==> final(state)@.cards_placed(),
            old(state)@.hands_consistent() ==> final(state)@.hands_consistent(),
            old(self)@.entries.len() == 0 ==> resolved is None && final(self)@ == old(self)@
                && final(state)@ == old(state)@,
            old(self)@.entries.len() > 0 ==> resolved == Some(old(self)@.entries.last())
                && final(self)@ == (StackView {
                entries: old(self)@.entries.drop_last(),
                consecutive_passes: 0,
                current_priority: old(self)@.entries.last().controller,
                ..old(self)@
            }) && resolved_by(context, old(state)@, old(self)@.entries.last(), final(state)@),
    {
        match self.entries.pop() {
            Some(entry) => {
                let results = EffectResolver::resolve_batch(state, &entry.effects, context);
                self.consecutive_passes = 0;
                self.current_priority = entry.controller;
                proof {
                    assert(took(results@));
                }
                Some(entry)
            },
            None => None,
        }
    }

    /// Gives priority to the next player in index order.
    fn advance_priority(&mut self)
        requires
            old(self).player_count > 0,
        ensures
            final(self)@ == (StackView {
                current_priority: old(self)@.next_player(),
                ..old(self)@
            }),
    {
        let next = (self.current_priority.0 as usize + 1) % self.player_count;
        self.current_priority = PlayerId::new((next % 256) as u8);
    }

    /// Gives priority to a player; the passes start over.
    pub fn set_priority(&mut self, player: PlayerId)
        ensures
            final(self)@ == (StackView {
                current_priority: player,
                consecutive_passes: 0,
                ..old(self)@
            }),
    {
        self.current_priority = player;
        self.consecutive_passes = 0;
    }
}

/// Marks the results that resolving an entry gave.
/// It holds of everything: it only gives the prover a term to find the
/// values by.
pub open spec fn took(results: Seq<ResolveResult>) -> bool {
    true
}

/// Resolving an entry of the stack can lead from `pre` to `post`.
pub open spec fn resolved_by<C: ResolverContext>(
    context: &C,
    pre: GameStateView, entry: StackEntry, post: GameStateView) -> bool {
    exists|results: Seq<ResolveResult>| #[trigger]
        took(results) && entries_run(context, pre,
            entry.effects@,
            entry.effects@.len() as int,
            post,
            results,
        )
}

impl ResolutionSystem for PriorityStack {
    /// Puts the effects of an action on top of the stack, unless there are
    /// none; the passes start over and the controller gets priority.
    fn queue_action(&mut self, source_action: Action, effects: EffectBatch, controller: PlayerId)
        ensures
            effects@.len() == 0 ==> final(self)@ == old(self)@,
            effects@.len() > 0 ==> final(self)@ == old(self)@.with_entry(
                StackEntry {
                    id: StackEntryId(old(self)@.next_id),
                    effects,
                    controller,
                    source: StackSource::Action(source_action),
                },
            ),
    {
        if effects.is_empty() {
            return ;
        }
        let id = StackEntryId::new(self.next_id);
        self.next_id = next_entry_id(self.next_id);
        self.entries.push(
            StackEntry { id, effects, controller, source: StackSource::Action(source_action) },
        );
        self.consecutive_passes = 0;
        self.current_priority = controller;
    }

    /// Lets what a trigger proposes wait to go onto the stack, unless it
    /// proposes nothing.
    fn queue_triggered(&mut self, triggered: TriggeredEffect)
        ensures
            final(self)@ == (if triggered.effects@.len() == 0 {
                old(self)@
            } else {
                StackView {
                    pending_triggers: old(self)@.pending_triggers.push(triggered),
                    ..old(self)@
                }
            }),
    {
        if triggered.effects.len() > 0 {
            self.pending_triggers.push(triggered);
        }
    }

    /// One step: the triggers that wait go onto the stack; then, if the
    /// stack is empty, the system is complete; if every player has passed,
    /// the top of the stack resolves and the system is processing, also
    /// where that was the last entry: it is complete at the next step;
    /// otherwise the system waits for the player with priority.
    fn process<C: ResolverContext>(&mut self, state: &mut GameState, context: &C) -> (status:
        ResolutionStatus)
        ensures
            exists|flushed: StackView| #[trigger]
                old(self)@.flushes_to(flushed) && if flushed.entries.len() == 0 {
                    status == ResolutionStatus::Complete && final(self)@ == flushed && final(state)@ == old(state)@
                } else if flushed.consecutive_passes >= flushed.player_count {
                    &&& final(self)@ == (StackView {
                        entries: flushed.entries.drop_last(),
                        consecutive_passes: 0,
                        current_priority: flushed.entries.last().controller,
                        ..flushed
                    })
                    &&& resolved_by(context, old(state)@, flushed.entries.last(), final(state)@)
                    &&& status == ResolutionStatus::Processing
                } else {
                    status == ResolutionStatus::WaitingForPriority(flushed.current_priority)
                        && final(self)@ == flushed && final(state)@ == old(state)@
                },
    {
        if self.pending_triggers.len() > 0 {
            self.flush_triggers();
        }
        let ghost flushed = self@;
        proof {
            assert(old(self)@.flushes_to(flushed));
        }
        if self.entries.len() == 0 {
            return ResolutionStatus::Complete;
        }
        if self.consecutive_passes >= self.player_count {
            let _ = self.resolve_top(state, context);
            return ResolutionStatus::Processing;
        }
        ResolutionStatus::WaitingForPriority(self.current_priority)
    }

    /// Whether nothing is on the stack and nothing waits to go onto it.
    fn is_complete(&self) -> (complete: bool)
        ensures
            complete == self@.is_empty(),
    {
        self.entries.len() == 0 && self.pending_triggers.len() == 0
    }

    /// The player with priority, while anything is on the stack or waits
    /// to go onto it.
    fn priority_player(&self) -> (player: Option<PlayerId>)
        ensures
            player == (if self@.is_empty() {
                None
            } else {
                Some(self@.current_priority)
            }),
    {
        if self.entries.len() == 0 && self.pending_triggers.len() == 0 {
            None
        } else {
            Some(self.current_priority)
        }
    }

    /// Drops the stack and the triggers that wait; the passes start over.
    fn clear(&mut self)
        ensures
            final(self)@ == (StackView {
                entries: Seq::empty(),
                pending_triggers: Seq::empty(),
                consecutive_passes: 0,
                ..old(self)@
            }),
    {
        self.entries.clear();
        self.pending_triggers.clear();
        self.consecutive_passes = 0;
    }
}

} // verus!
