//! The policies that a search is made of.
//!
//! A selection policy picks among the expanded edges of a node, a
//! simulation policy plays a game to its end, and an opponent policy says
//! what a player other than the searching one does.

use super::node::{MCTSNode, RewardModel};
use crate::base::action::Action;
use crate::base::player::PlayerId;
use crate::base::rng::{indexed, GameRng, GameRngState};
use crate::base::state::GameState;
use crate::base::action::ActionView;
use crate::rules::engine::{
    action_views, enumerates, ActionEnumeration, GameResult, RulesEngine,
};
use vstd::prelude::*;

verus! {

/// Picks the edge to follow at a node whose edges are all expanded.
pub trait SelectionPolicy<M: RewardModel> {
    /// The index of the edge to follow, for the player who searches.
    fn select(&self, node: &MCTSNode<M>, player: PlayerId) -> usize;
}

/// Plays a game on from a state and says what it was worth.
pub trait SimulationPolicy<E: RulesEngine, M: RewardModel> {
    /// Plays on from `state`, at most `max_depth` moves where that is not
    /// 0, and gives what the game was worth.
    fn simulate(
        &self,
        engine: &mut E,
        state: &mut GameState,
        rng: &mut GameRng,
        max_depth: u32,
    ) -> (worth: M::Rewards);
}

/// Says what a player other than the searching one does.
pub trait OpponentPolicy<E: RulesEngine> {
    /// The action the opponent takes; none if the opponent cannot act.
    fn choose_action(
        &self,
        engine: &E,
        state: &GameState,
        opponent: PlayerId,
        rng: &mut GameRng,
    ) -> Option<Action>;
}

/// Plays on by drawing each move from the legal actions, all alike, and
/// says what the game was worth in the rewards of `M`.
#[verifier::reject_recursive_types(M)]
pub struct RandomSimulation<M: RewardModel> {
    model: std::marker::PhantomData<M>,
}

impl<M: RewardModel> RandomSimulation<M> {
    /// The policy.
    pub fn new() -> Self {
        RandomSimulation { model: std::marker::PhantomData }
    }
}

impl<M: RewardModel> Default for RandomSimulation<M> {
    fn default() -> Self {
        RandomSimulation::new()
    }
}

impl<E: RulesEngine, M: RewardModel> SimulationPolicy<E, M> for RandomSimulation<M> {
    /// Plays the game out at random, as `random_playout` says: a game
    /// that ends is worth what its result is worth; one that is cut off is
    /// worth the estimate of the state it has reached; one in which the
    /// player to move has no legal action is worth the same to all.
    fn simulate(
        &self,
        engine: &mut E,
        state: &mut GameState,
        rng: &mut GameRng,
        max_depth: u32,
    ) -> (worth: M::Rewards)
        ensures
            final(rng)@.seed == old(rng)@.seed,
            final(rng)@.fork_counter == old(rng)@.fork_counter,
            played_out::<E, M>(&*old(engine), &*old(state), final(engine), final(state), worth),
    {
        random_playout::<E, M>(engine, state, rng, max_depth)
    }
}

/// Whether the rules can take a state to be not over.
pub open spec fn goes_on<E: RulesEngine>(engine: &E, state: &GameState) -> bool {
    call_ensures(E::is_terminal, (engine, state), None::<GameResult>)
}

/// Whether `action` is a move of a playout from `state` under the rules
/// `engine`, made on `made` and `game`: they are the rules and the state,
/// the action is one of the legal actions of the active player, and it
/// is applied for that player.
pub open spec fn moves_from<E: RulesEngine>(
    engine: &E,
    state: &GameState,
    action: Action,
    made: &mut E,
    game: &mut GameState,
) -> bool {
    &&& mut_ref_current(made) == *engine
    &&& mut_ref_current(game) == *state
    &&& exists|actions: Seq<ActionView>| #[trigger]
        enumerates(engine, state, state.public.active_player, actions) && actions.contains(
            action@,
        )
    &&& call_ensures(E::apply_action, (made, game, state.public.active_player, &action), ())
}

/// Whether a playout from `state` under the rules `engine` can have made
/// a move.
pub open spec fn begun<E: RulesEngine>(engine: &E, state: &GameState) -> bool {
    exists|action: Action, made: &mut E, game: &mut GameState| #[trigger]
        moves_from(engine, state, action, made, game)
}

/// Whether `worth` can be what a game played out at random was worth,
/// where it began in `first` and stopped in `state`, under the rules
/// `began` and `engine`. Either the rules take the game to be over in
/// `state`, and it is worth what the result is worth. Or they take it to
/// go on, and the playout was cut off after a move or more: it is worth
/// the estimate of `state`. Or they take it to go on, and the active
/// player has no legal action: it is worth the same to all.
pub open spec fn played_out<E: RulesEngine, M: RewardModel>(
    began: &E,
    first: &GameState,
    engine: &E,
    state: &GameState,
    worth: M::Rewards,
) -> bool {
    let player_count = first@.public.player_count;
    ||| exists|result: GameResult| #[trigger]
        call_ensures(E::is_terminal, (engine, state), Some(result)) && call_ensures(
            M::rewards_of,
            (&result, player_count),
            worth,
        )
    ||| goes_on(engine, state) && begun(began, first) && call_ensures(
        M::estimate,
        (state, player_count),
        worth,
    )
    ||| goes_on(engine, state) && enumerates(
        engine,
        state,
        state.public.active_player,
        Seq::<ActionView>::empty(),
    ) && call_ensures(M::even, (player_count,), worth)
}

/// Makes one move of a playout: an action drawn from the legal actions of
/// the active player, all alike, is applied for that player. Says
/// whether there was a legal action; nothing changes where there was
/// none.
pub fn playout_move<E: RulesEngine>(engine: &mut E, state: &mut GameState, rng: &mut GameRng) -> (moved:
    bool)
    ensures
        final(rng)@.seed == old(rng)@.seed,
        final(rng)@.fork_counter == old(rng)@.fork_counter,
        !moved ==> enumerates(
            &*old(engine),
            &*old(state),
            old(state).public.active_player,
            Seq::<ActionView>::empty(),
        ) && *final(engine) == *old(engine) && *final(state) == *old(state) && final(rng)@ == old(rng)@,
        moved ==> exists|action: Action, made: &mut E, game: &mut GameState| #[trigger]
            moves_from(&*old(engine), &*old(state), action, made, game) && mut_ref_future(made)
                == *final(engine) && mut_ref_future(game) == *final(state),
        moved ==> exists|actions: Seq<ActionView>| #[trigger]
            enumerates(&*old(engine), &*old(state), old(state).public.active_player, actions)
                && actions.len() > 0 && drawn_index(old(rng)@, actions.len()).0 < actions.len()
                && final(rng)@.word_pos == drawn_index(old(rng)@, actions.len()).1 && exists|
                action: Action,
                made: &mut E,
                game: &mut GameState,
            | #[trigger]
                call_ensures(
                    E::apply_action,
                    (made, game, old(state).public.active_player, &action),
                    (),
                ) && action@ == actions[drawn_index(old(rng)@, actions.len()).0 as int]
                    && mut_ref_current(made) == *old(engine) && mut_ref_current(game) == *old(state) && mut_ref_future(made) == *final(engine) && mut_ref_future(game) == *final(state),
{
    let active = state.public.active_player;
    let actions = engine.legal_actions(state, active);
    if actions.len() == 0 {
        proof {
            assert(action_views(actions@) =~= Seq::<ActionView>::empty());
        }
        return false;
    }
    let drawn = rng.gen_range_usize(0..actions.len());
    let ghost engine_before = *engine;
    let ghost state_before = *state;
    engine.apply_action(state, active, &actions[drawn]);
    proof {
        let action = actions@[drawn as int];
        assert(action_views(actions@)[drawn as int] == action@);
        let (made, game) = choose|made: &mut E, game: &mut GameState| #[trigger]
            call_ensures(E::apply_action, (made, game, active, &action), ()) && mut_ref_current(
                made,
            ) == engine_before && mut_ref_current(game) == state_before && mut_ref_future(made)
                == *engine && mut_ref_future(game) == *state;
        assert(moves_from(&engine_before, &state_before, action, made, game));
    }
    true
}

/// Plays a game on from a state, each move drawn from the legal actions
/// of the active player, all alike. A game that ends is worth what its
/// result is worth; one that is cut off after `max_depth` moves is worth
/// the estimate of the state it has reached; one in which the player to
/// move has no legal action is worth the same to all. No game is played on
/// for more moves than `u32` counts.
pub fn random_playout<E: RulesEngine, M: RewardModel>(
    engine: &mut E,
    state: &mut GameState,
    rng: &mut GameRng,
    max_depth: u32,
) -> (worth: M::Rewards)
    ensures
        final(rng)@.seed == old(rng)@.seed,
        final(rng)@.fork_counter == old(rng)@.fork_counter,
        played_out::<E, M>(&*old(engine), &*old(state), final(engine), final(state), worth),
{
    let player_count = state.player_count();
    let mut depth: u32 = 0;
    loop
        invariant
            player_count == old(state)@.public.player_count,
            rng@.seed == old(rng)@.seed,
            rng@.fork_counter == old(rng)@.fork_counter,
            depth > 0 ==> begun(&*old(engine), &*old(state)),
            depth == 0 ==> *engine == *old(engine) && *state == *old(state),
        decreases u32::MAX - depth,
    {
        match engine.is_terminal(state) {
            Some(result) => {
                return M::rewards_of(&result, player_count);
            },
            None => {},
        }
        if (max_depth > 0 && depth >= max_depth) || depth == u32::MAX {
            return M::estimate(state, player_count);
        }
        if !playout_move(engine, state, rng) {
            return M::even(player_count);
        }
        depth = depth + 1;
    }
}

/// The place that a generator in the given state draws among `count`
/// items, and where it then stands.
pub open spec fn drawn_index(rng: GameRngState, count: nat) -> (usize, u128) {
    indexed(rng.seed, rng.word_pos, 0, count as usize, usize::BITS)
}

/// Draws the opponent's action from the legal actions, all alike.
#[derive(Clone, Copy, Debug, Default)]
pub struct UniformOpponent;

impl<E: RulesEngine> OpponentPolicy<E> for UniformOpponent {
    /// One of the opponent's legal actions, at the place the generator
    /// draws among as many; none if there is none, and then nothing is
    /// drawn.
    fn choose_action(
        &self,
        engine: &E,
        state: &GameState,
        opponent: PlayerId,
        rng: &mut GameRng,
    ) -> (chosen: Option<Action>)
        ensures
            final(rng)@.seed == old(rng)@.seed,
            final(rng)@.fork_counter == old(rng)@.fork_counter,
            exists|actions: Seq<ActionView>| #[trigger]
                enumerates(engine, state, opponent, actions) && match chosen {
                    Some(action) => actions.len() > 0 && drawn_index(old(rng)@, actions.len()).0
                        < actions.len() && action@ == actions[drawn_index(
                        old(rng)@,
                        actions.len(),
                    ).0 as int] && final(rng)@.word_pos == drawn_index(old(rng)@, actions.len()).1,
                    None => actions.len() == 0 && final(rng)@ == old(rng)@,
                },
    {
        let actions = engine.legal_actions(state, opponent);
        if actions.len() == 0 {
            return None;
        }
        let drawn = rng.gen_range_usize(0..actions.len());
        let chosen = actions[drawn].clone();
        proof {
            assert(action_views(actions@)[drawn as int] == chosen@);
        }
        Some(chosen)
    }
}

} // verus!
