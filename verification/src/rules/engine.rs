//! The rules of a game, as the engine sees them.
//!
//! A game says which action templates a player may use, which entities
//! may fill the next pointer of an action that is being put together, how
//! an action changes the state, and when the game is over. The engine
//! puts complete actions together from these answers.

use crate::base::action::{Action, ActionView};
use crate::base::config::{GameConfig, TemplateId};
use crate::base::entity::EntityId;
use crate::base::player::PlayerId;
use crate::base::state::GameState;
use vstd::prelude::*;

verus! {

/// How a game ended.
#[derive(Clone, Debug, PartialEq, Eq)]
pub enum GameResult {
    /// One player won.
    Winner(PlayerId),
    /// No one won.
    Draw,
    /// Several players won.
    Winners(Vec<PlayerId>),
}

/// The end of a game as plain values.
pub enum GameResultView {
    Winner(PlayerId),
    Draw,
    Winners(Seq<PlayerId>),
}

impl View for GameResult {
    type V = GameResultView;

    open spec fn view(&self) -> GameResultView {
        match self {
            GameResult::Winner(player) => GameResultView::Winner(*player),
            GameResult::Draw => GameResultView::Draw,
            GameResult::Winners(players) => GameResultView::Winners(players@),
        }
    }
}

impl GameResultView {
    /// Whether a player is among the winners.
    pub open spec fn is_winner(self, player: PlayerId) -> bool {
        match self {
            GameResultView::Winner(winner) => winner == player,
            GameResultView::Draw => false,
            GameResultView::Winners(winners) => winners.contains(player),
        }
    }
}

impl GameResult {
    /// Whether a player is among the winners.
    #[verifier::loop_isolation(false)]
    pub fn is_winner(&self, player: PlayerId) -> (won: bool)
        ensures
            won == self@.is_winner(player),
    {
        match self {
            GameResult::Winner(winner) => *winner == player,
            GameResult::Winners(winners) => {
                let mut next: usize = 0;
                while next < winners.len()
                    invariant
                        next <= winners@.len(),
                        forall|i: int| 0 <= i < next ==> winners@[i] != player,
                    decreases winners@.len() - next,
                {
                    if winners[next] == player {
                        assert(winners@[next as int] == player);
                        return true;
                    }
                    next = next + 1;
                }
                false
            },
            GameResult::Draw => false,
        }
    }
}

/// The rules of a game. What a game answers has to depend on its
/// arguments alone.
pub trait RulesEngine: Sized {
    /// The configuration of the game.
    fn config(&self) -> &GameConfig;

    /// The templates a player may use in a state; none if the player
    /// cannot act.
    fn legal_templates(&self, state: &GameState, player: PlayerId) -> Vec<TemplateId>;

    /// The entities that may come next in an action of a template that
    /// begins with the pointers `prior_pointers`; none if the action is
    /// complete.
    fn legal_pointers(
        &self,
        state: &GameState,
        player: PlayerId,
        template: TemplateId,
        prior_pointers: &[EntityId],
    ) -> Vec<EntityId>;

    /// Applies an action of a player to the state.
    fn apply_action(&mut self, state: &mut GameState, player: PlayerId, action: &Action);

    /// How the game ended, if it has.
    fn is_terminal(&self, state: &GameState) -> Option<GameResult>;
}

/// Actions as plain values.
pub open spec fn action_views(actions: Seq<Action>) -> Seq<ActionView> {
    Seq::new(actions.len(), |i: int| actions[i]@)
}

/// Marks the pointers that the game offered.
/// It holds of everything: it only gives the prover a term to find the
/// values by.
pub open spec fn offered_pointers(prior: &[EntityId], offered: Vec<EntityId>) -> bool {
    true
}

/// Marks the templates that the game offered.
/// It holds of everything: it only gives the prover a term to find the
/// values by.
pub open spec fn offered_templates(templates: Vec<TemplateId>) -> bool {
    true
}

/// Marks the two parts that a list of actions is made of.
/// It holds of everything: it only gives the prover a term to find the
/// values by.
pub open spec fn joined(head: Seq<ActionView>, tail: Seq<ActionView>) -> bool {
    true
}

/// `actions` can be the complete actions of a template that begin with the
/// pointers `prior`: the game was asked for the next pointers; where it
/// offered none, or the action is `depth` pointers long, the action of
/// `prior` alone is the one complete action; otherwise the complete
/// actions are those of each pointer offered, in the order offered.
pub open spec fn completes<E: RulesEngine>(
    engine: &E,
    state: &GameState,
    player: PlayerId,
    template: TemplateId,
    prior: Seq<EntityId>,
    depth: nat,
    actions: Seq<ActionView>,
) -> bool
    decreases depth, 0nat,
{
    exists|prior_slice: &[EntityId], offered: Vec<EntityId>| #[trigger]
        offered_pointers(prior_slice, offered) && prior_slice@ == prior && call_ensures(
            E::legal_pointers,
            (engine, state, player, template, prior_slice),
            offered,
        ) && if offered@.len() == 0 || depth == 0 {
            actions == seq![ActionView { template, pointers: prior }]
        } else {
            completes_over(
                engine,
                state,
                player,
                template,
                prior,
                offered@,
                offered@.len(),
                (depth - 1) as nat,
                actions,
            )
        }
}

/// `actions` can be the complete actions that begin with `prior` and one
/// of the first `count` of the offered pointers.
pub open spec fn completes_over<E: RulesEngine>(
    engine: &E,
    state: &GameState,
    player: PlayerId,
    template: TemplateId,
    prior: Seq<EntityId>,
    offered: Seq<EntityId>,
    count: nat,
    depth: nat,
    actions: Seq<ActionView>,
) -> bool
    decreases depth, count + 1,
{
    if count == 0 || count > offered.len() {
        actions == Seq::<ActionView>::empty()
    } else {
        exists|head: Seq<ActionView>, tail: Seq<ActionView>| #[trigger]
            joined(head, tail) && completes_over(
                engine,
                state,
                player,
                template,
                prior,
                offered,
                (count - 1) as nat,
                depth,
                head,
            ) && completes(
                engine,
                state,
                player,
                template,
                prior.push(offered[count - 1]),
                depth,
                tail,
            ) && actions == head + tail
    }
}

/// `actions` can be the complete actions of the first `count` of the
/// given templates, template by template.
pub open spec fn completes_templates<E: RulesEngine>(
    engine: &E,
    state: &GameState,
    player: PlayerId,
    templates: Seq<TemplateId>,
    count: nat,
    actions: Seq<ActionView>,
) -> bool
    decreases count,
{
    if count == 0 || count > templates.len() {
        actions == Seq::<ActionView>::empty()
    } else {
        exists|head: Seq<ActionView>, tail: Seq<ActionView>| #[trigger]
            joined(head, tail) && completes_templates(
                engine,
                state,
                player,
                templates,
                (count - 1) as nat,
                head,
            ) && completes(
                engine,
                state,
                player,
                templates[count - 1],
                Seq::empty(),
                usize::MAX as nat,
                tail,
            ) && actions == head + tail
    }
}

/// `actions` can be the legal actions of a player: the game was asked for
/// the legal templates, and the actions are the complete actions of each.
pub open spec fn enumerates<E: RulesEngine>(
    engine: &E,
    state: &GameState,
    player: PlayerId,
    actions: Seq<ActionView>,
) -> bool {
    exists|templates: Vec<TemplateId>| #[trigger]
        offered_templates(templates) && call_ensures(
            E::legal_templates,
            (engine, state, player),
            templates,
        ) && completes_templates(
            engine,
            state,
            player,
            templates@,
            templates@.len(),
            actions,
        )
}

/// One more pointer followed extends the complete actions.
proof fn lemma_completes_step<E: RulesEngine>(
    engine: &E,
    state: &GameState,
    player: PlayerId,
    template: TemplateId,
    prior: Seq<EntityId>,
    offered: Seq<EntityId>,
    count: nat,
    depth: nat,
    head: Seq<ActionView>,
    tail: Seq<ActionView>,
)
    requires
        count < offered.len(),
        completes_over(engine, state, player, template, prior, offered, count, depth, head),
        completes(engine, state, player, template, prior.push(offered[count as int]), depth, tail),
    ensures
        completes_over(
            engine,
            state,
            player,
            template,
            prior,
            offered,
            count + 1,
            depth,
            head + tail,
        ),
{
    reveal_with_fuel(completes_over, 2);
    assert(joined(head, tail));
    let next = count + 1;
    assert((next - 1) as nat == count);
}

/// One more template followed extends the complete actions.
proof fn lemma_templates_step<E: RulesEngine>(
    engine: &E,
    state: &GameState,
    player: PlayerId,
    templates: Seq<TemplateId>,
    count: nat,
    head: Seq<ActionView>,
    tail: Seq<ActionView>,
)
    requires
        count < templates.len(),
        completes_templates(engine, state, player, templates, count, head),
        completes(
            engine,
            state,
            player,
            templates[count as int],
            Seq::empty(),
            usize::MAX as nat,
            tail,
        ),
    ensures
        completes_templates(engine, state, player, templates, count + 1, head + tail),
{
    reveal_with_fuel(completes_templates, 2);
    assert(joined(head, tail));
    let next = count + 1;
    assert((next - 1) as nat == count);
}

/// Adds to `out` the complete actions of a template that begin with the
/// given pointers, in the order in which the game offers the pointers: the
/// action of those pointers alone where the game offers no further one,
/// and otherwise the complete actions of each pointer offered. A list of
/// pointers cannot grow beyond what `usize` counts; an action that long is
/// taken as complete.
pub fn enumerate_actions<E: RulesEngine>(
    engine: &E,
    state: &GameState,
    player: PlayerId,
    template: TemplateId,
    prior_pointers: &[EntityId],
    out: &mut Vec<Action>,
)
    ensures
        final(out)@.len() >= old(out)@.len(),
        final(out)@.subrange(0, old(out)@.len() as int) == old(out)@,
        completes(
            engine,
            state,
            player,
            template,
            prior_pointers@,
            (usize::MAX - prior_pointers@.len()) as nat,
            action_views(final(out)@.subrange(old(out)@.len() as int, final(out)@.len() as int)),
        ),
    decreases usize::MAX - prior_pointers@.len(),
{
    let next_pointers = engine.legal_pointers(state, player, template, prior_pointers);
    let ghost depth = (usize::MAX - prior_pointers@.len()) as nat;
    let ghost start = out@;
    proof {
        reveal_with_fuel(completes, 2);
        reveal_with_fuel(completes_over, 2);
        assert(offered_pointers(prior_pointers, next_pointers));
    }
    if next_pointers.len() == 0 || prior_pointers.len() == usize::MAX {
        out.push(Action::with_pointers(template, prior_pointers));
        proof {
            assert(out@.subrange(0, start.len() as int) =~= start);
            assert(action_views(out@.subrange(start.len() as int, out@.len() as int)) =~= seq![
                ActionView { template, pointers: prior_pointers@ },
            ]);
        }
    } else {
        let mut next: usize = 0;
        proof {
            assert(out@.subrange(0, start.len() as int) =~= start);
            assert(action_views(out@.subrange(start.len() as int, out@.len() as int))
                =~= Seq::<ActionView>::empty());
        }
        while next < next_pointers.len()
            invariant
                next <= next_pointers@.len(),
                prior_pointers@.len() < usize::MAX,
                depth == (usize::MAX - prior_pointers@.len()) as nat,
                start == old(out)@,
                out@.len() >= start.len(),
                out@.subrange(0, start.len() as int) == start,
                completes_over(
                    engine,
                    state,
                    player,
                    template,
                    prior_pointers@,
                    next_pointers@,
                    next as nat,
                    (depth - 1) as nat,
                    action_views(out@.subrange(start.len() as int, out@.len() as int)),
                ),
            decreases next_pointers@.len() - next,
        {
            let mut pointers = slice_to_vec(prior_pointers);
            pointers.push(next_pointers[next]);
            let ghost before = out@;
            enumerate_actions(engine, state, player, template, pointers.as_slice(), out);
            proof {
                let head = action_views(before.subrange(start.len() as int, before.len() as int));
                let tail = action_views(out@.subrange(before.len() as int, out@.len() as int));
                assert(out@.subrange(0, before.len() as int) == before);
                assert(out@.subrange(0, start.len() as int) =~= before.subrange(
                    0,
                    start.len() as int,
                ));
                assert(action_views(out@.subrange(start.len() as int, out@.len() as int)) =~= head
                    + tail) by {
                    assert forall|i: int| 0 <= i < before.len() implies out@[i] == before[i] by {
                        assert(out@.subrange(0, before.len() as int)[i] == out@[i]);
                    }
                }
                lemma_completes_step(
                    engine,
                    state,
                    player,
                    template,
                    prior_pointers@,
                    next_pointers@,
                    next as nat,
                    (depth - 1) as nat,
                    head,
                    tail,
                );
            }
            next = next + 1;
        }
    }
}

/// Putting complete actions together, for every game.
pub trait ActionEnumeration: RulesEngine {
    /// The complete actions a player may take in a state: for each legal
    /// template in order, every way to fill its pointers, in the order in
    /// which the game offers them.
    fn legal_actions(&self, state: &GameState, player: PlayerId) -> (actions: Vec<Action>)
        ensures
            enumerates(self, state, player, action_views(actions@)),
    ;

    /// Adds to `out` the complete actions of a template that begin with
    /// the given pointers.
    fn enumerate_actions_for_template(
        &self,
        state: &GameState,
        player: PlayerId,
        template: TemplateId,
        prior_pointers: &[EntityId],
        out: &mut Vec<Action>,
    )
        ensures
            final(out)@.len() >= old(out)@.len(),
            final(out)@.subrange(0, old(out)@.len() as int) == old(out)@,
            completes(
                self,
                state,
                player,
                template,
                prior_pointers@,
                (usize::MAX - prior_pointers@.len()) as nat,
                action_views(
                    final(out)@.subrange(old(out)@.len() as int, final(out)@.len() as int),
                ),
            ),
    ;
}

impl<E: RulesEngine> ActionEnumeration for E {
    fn legal_actions(&self, state: &GameState, player: PlayerId) -> (actions: Vec<Action>) {
        let templates = self.legal_templates(state, player);
        let mut actions: Vec<Action> = Vec::new();
        let none: Vec<EntityId> = Vec::new();
        let mut next: usize = 0;
        proof {
            assert(offered_templates(templates));
            assert(action_views(actions@) =~= Seq::<ActionView>::empty());
        }
        while next < templates.len()
            invariant
                next <= templates@.len(),
                none@.len() == 0,
                completes_templates(
                    self,
                    state,
                    player,
                    templates@,
                    next as nat,
                    action_views(actions@),
                ),
            decreases templates@.len() - next,
        {
            let ghost before = actions@;
            enumerate_actions(self, state, player, templates[next], none.as_slice(), &mut actions);
            proof {
                let head = action_views(before);
                let tail = action_views(actions@.subrange(before.len() as int, actions@.len() as int));
                assert(none@ =~= Seq::<EntityId>::empty());
                assert(action_views(actions@) =~= head + tail) by {
                    assert forall|i: int| 0 <= i < before.len() implies actions@[i] == before[i] by {
                        assert(actions@.subrange(0, before.len() as int)[i] == actions@[i]);
                    }
                }
                lemma_templates_step(self, state, player, templates@, next as nat, head, tail);
            }
            next = next + 1;
        }
        actions
    }

    fn enumerate_actions_for_template(
        &self,
        state: &GameState,
        player: PlayerId,
        template: TemplateId,
        prior_pointers: &[EntityId],
        out: &mut Vec<Action>,
    ) {
        enumerate_actions(self, state, player, template, prior_pointers, out);
    }
}

/// A copy of a slice of entities.
pub fn slice_to_vec(entities: &[EntityId]) -> (copy: Vec<EntityId>)
    ensures
        copy@ == entities@,
{
    let mut copy: Vec<EntityId> = Vec::new();
    let mut next: usize = 0;
    while next < entities.len()
        invariant
            next <= entities@.len(),
            copy@ == entities@.take(next as int),
        decreases entities@.len() - next,
    {
        copy.push(entities[next]);
        proof {
            assert(entities@.take(next as int + 1) =~= entities@.take(next as int).push(
                entities@[next as int],
            ));
        }
        next = next + 1;
    }
    proof {
        assert(entities@.take(entities@.len() as int) =~= entities@);
    }
    copy
}

} // verus!
