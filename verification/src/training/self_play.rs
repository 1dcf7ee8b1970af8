//! The loop of a self-play game.

use crate::base::action::Action;
use crate::base::player::PlayerId;
use crate::base::state::GameState;
use crate::mcts::policy::goes_on;
use crate::rules::engine::{GameResult, RulesEngine};
use vstd::prelude::*;

verus! {

/// Chooses the moves of a self-play game and records them.
pub trait MoveChooser<E: RulesEngine> {
    /// The move of the active player in a state, searched for with the
    /// given seed and recorded; nothing where the player cannot move.
    fn choose_move(
        &mut self,
        engine: &E,
        state: &mut GameState,
        player: PlayerId,
        move_number: usize,
        seed: u64,
    ) -> Option<Action>;
}

/// Marks the states and the choosers that a game passed through, one for
/// each move and one more. It holds of everything: it only gives the
/// prover a term to find them by.
pub open spec fn passed<C>(before: Seq<GameState>, choosers: Seq<C>) -> bool {
    true
}

/// Whether a game has come to play greedily: from the move with the
/// number `threshold` on, where that is not 0; never where it is 0.
pub fn greedy_from(threshold: usize, move_number: usize) -> (greedy: bool)
    ensures
        greedy == (threshold > 0 && move_number >= threshold),
{
    threshold > 0 && move_number >= threshold
}

/// How a self-play game went.
pub struct PlayedGame {
    /// The number of moves made.
    pub moves: usize,
    /// What the rules say of the state the game stopped in: how it ended,
    /// or nothing where it was cut short.
    pub result: Option<GameResult>,
}

/// Plays games of a rules engine against itself.
pub struct SelfPlayWorker<E: RulesEngine + Clone> {
    engine: E,
    max_moves: usize,
}

impl<E: RulesEngine + Clone> SelfPlayWorker<E> {
    /// The most moves a game is played for.
    pub closed spec fn move_limit(&self) -> usize {
        self.max_moves
    }

    /// The rules of the game.
    pub closed spec fn rules(&self) -> E {
        self.engine
    }

    /// A worker that plays games of at most `max_moves` moves.
    pub fn new(engine: E, max_moves: usize) -> (worker: Self)
        ensures
            worker.move_limit() == max_moves,
            worker.rules() == engine,
    {
        SelfPlayWorker { engine, max_moves }
    }

    /// The rules of the game.
    pub fn engine(&self) -> (engine: &E)
        ensures
            *engine == self.rules(),
    {
        &self.engine
    }

    /// The most moves a game is played for.
    pub fn max_moves(&self) -> (limit: usize)
        ensures
            limit == self.move_limit(),
    {
        self.max_moves
    }

    /// Plays a game from a state: move by move, the chooser picks the move
    /// of the active player and the rules apply it, until the game is
    /// over, the chooser has no move, or the most moves are made. Gives
    /// the number of moves made and what the rules say of the state the
    /// game stopped in.
    ///
    /// The game went through one state for each move made and one more,
    /// the first of them the state given. Before each move the rules took
    /// the game to go on; the move is the one the chooser gave for the
    /// active player, the number of the move and the seed plus that
    /// number; and a copy of the rules applied it. After the last move
    /// the game is over, or the most moves are made, or the chooser had no
    /// move for the move that was next.
    #[verifier::rlimit(60)]
    pub fn play_game<C: MoveChooser<E>>(&self, chooser: &mut C, state: &mut GameState, seed: u64) -> (played:
        PlayedGame)
        ensures
            played.moves <= self.move_limit(),
            call_ensures(E::is_terminal, (&self.rules(), &*final(state)), played.result),
            exists|before: Seq<GameState>, choosers: Seq<C>| #[trigger]
                passed(before, choosers) && before.len() == played.moves + 1 && choosers.len()
                    == played.moves + 1 && before[0] == *old(state) && choosers[0] == *old(chooser)
                    && (forall|k: int|
                    0 <= k < played.moves ==> goes_on(&self.rules(), &#[trigger] before[k])
                        && exists|
                        asked: &mut C,
                        game: &mut GameState,
                        action: Action,
                        copy: &mut E,
                        board: &mut GameState,
                    |
                        #![trigger
                            call_ensures(
                                C::choose_move,
                                (
                                    asked,
                                    &self.rules(),
                                    game,
                                    mut_ref_current(game).public.active_player,
                                    k as usize,
                                    seed.wrapping_add(k as u64),
                                ),
                                Some(action),
                            ),
                            call_ensures(
                                E::apply_action,
                                (copy, board, mut_ref_current(game).public.active_player, &action),
                                (),
                            )
                        ]
                        call_ensures(
                            C::choose_move,
                            (
                                asked,
                                &self.rules(),
                                game,
                                mut_ref_current(game).public.active_player,
                                k as usize,
                                seed.wrapping_add(k as u64),
                            ),
                            Some(action),
                        ) && call_ensures(E::clone, (&self.rules(),), mut_ref_current(copy))
                            && call_ensures(
                            E::apply_action,
                            (copy, board, mut_ref_current(game).public.active_player, &action),
                            (),
                        )
                            && mut_ref_current(asked) == choosers[k] && mut_ref_current(game)
                            == before[k] && mut_ref_future(asked) == choosers[k + 1]
                            && mut_ref_current(board) == mut_ref_future(game) && mut_ref_future(
                            board,
                        ) == before[k + 1]) && ((before[played.moves as int] == *final(state)
                    && choosers[played.moves as int] == *final(chooser) && (played.result is Some
                    || played.moves == self.move_limit())) || (goes_on(
                    &self.rules(),
                    &before[played.moves as int],
                ) && exists|asked: &mut C, game: &mut GameState| #[trigger]
                    call_ensures(
                        C::choose_move,
                        (
                            asked,
                            &self.rules(),
                            game,
                            mut_ref_current(game).public.active_player,
                            played.moves,
                            seed.wrapping_add(played.moves as u64),
                        ),
                        None,
                    ) && mut_ref_current(asked) == choosers[played.moves as int] && mut_ref_current(
                        game,
                    ) == before[played.moves as int] && mut_ref_future(asked) == *final(chooser)
                        && mut_ref_future(game) == *final(state))),
    {
        let mut move_number: usize = 0;
        let ghost mut before: Seq<GameState> = seq![*state];
        let ghost mut choosers: Seq<C> = seq![*chooser];
        proof {
            assert(self.rules() == self.engine);
        }
        while move_number < self.max_moves
            invariant
                move_number <= self.max_moves,
                self.rules() == self.engine,
                before.len() == move_number + 1,
                choosers.len() == move_number + 1,
                before[0] == *old(state),
                choosers[0] == *old(chooser),
                before[move_number as int] == *state,
                choosers[move_number as int] == *chooser,
                forall|k: int|
                    0 <= k < move_number ==> goes_on(&self.rules(), &#[trigger] before[k])
                        && exists|
                        asked: &mut C,
                        game: &mut GameState,
                        action: Action,
                        copy: &mut E,
                        board: &mut GameState,
                    |
                        #![trigger
                            call_ensures(
                                C::choose_move,
                                (
                                    asked,
                                    &self.rules(),
                                    game,
                                    mut_ref_current(game).public.active_player,
                                    k as usize,
                                    seed.wrapping_add(k as u64),
                                ),
                                Some(action),
                            ),
                            call_ensures(
                                E::apply_action,
                                (copy, board, mut_ref_current(game).public.active_player, &action),
                                (),
                            )
                        ]
                        call_ensures(
                            C::choose_move,
                            (
                                asked,
                                &self.rules(),
                                game,
                                mut_ref_current(game).public.active_player,
                                k as usize,
                                seed.wrapping_add(k as u64),
                            ),
                            Some(action),
                        ) && call_ensures(E::clone, (&self.rules(),), mut_ref_current(copy))
                            && call_ensures(
                            E::apply_action,
                            (copy, board, mut_ref_current(game).public.active_player, &action),
                            (),
                        )
                            && mut_ref_current(asked) == choosers[k] && mut_ref_current(game)
                            == before[k] && mut_ref_future(asked) == choosers[k + 1]
                            && mut_ref_current(board) == mut_ref_future(game) && mut_ref_future(
                            board,
                        ) == before[k + 1],
            decreases self.max_moves - move_number,
        {
            let result = self.engine.is_terminal(state);
            if result.is_some() {
                proof {
                    assert(passed(before, choosers));
                    assert(exists|before: Seq<GameState>, choosers: Seq<C>| #[trigger]
                passed(before, choosers) && before.len() == move_number + 1 && choosers.len()
                    == move_number + 1 && before[0] == *old(state) && choosers[0] == *old(chooser)
                    && (forall|k: int|
                    0 <= k < move_number ==> goes_on(&self.rules(), &#[trigger] before[k])
                        && exists|
                        asked: &mut C,
                        game: &mut GameState,
                        action: Action,
                        copy: &mut E,
                        board: &mut GameState,
                    |
                        #![trigger
                            call_ensures(
                                C::choose_move,
                                (
                                    asked,
                                    &self.rules(),
                                    game,
                                    mut_ref_current(game).public.active_player,
                                    k as usize,
                                    seed.wrapping_add(k as u64),
                                ),
                                Some(action),
                            ),
                            call_ensures(
                                E::apply_action,
                                (copy, board, mut_ref_current(game).public.active_player, &action),
                                (),
                            )
                        ]
                        call_ensures(
                            C::choose_move,
                            (
                                asked,
                                &self.rules(),
                                game,
                                mut_ref_current(game).public.active_player,
                                k as usize,
                                seed.wrapping_add(k as u64),
                            ),
                            Some(action),
                        ) && call_ensures(E::clone, (&self.rules(),), mut_ref_current(copy))
                            && call_ensures(
                            E::apply_action,
                            (copy, board, mut_ref_current(game).public.active_player, &action),
                            (),
                        )
                            && mut_ref_current(asked) == choosers[k] && mut_ref_current(game)
                            == before[k] && mut_ref_future(asked) == choosers[k + 1]
                            && mut_ref_current(board) == mut_ref_future(game) && mut_ref_future(
                            board,
                        ) == before[k + 1]) && ((before[move_number as int] == *state
                    && choosers[move_number as int] == *chooser && (result is Some
                    || move_number == self.move_limit())) || (goes_on(
                    &self.rules(),
                    &before[move_number as int],
                ) && exists|asked: &mut C, game: &mut GameState| #[trigger]
                    call_ensures(
                        C::choose_move,
                        (
                            asked,
                            &self.rules(),
                            game,
                            mut_ref_current(game).public.active_player,
                            move_number,
                            seed.wrapping_add(move_number as u64),
                        ),
                        None,
                    ) && mut_ref_current(asked) == choosers[move_number as int] && mut_ref_current(
                        game,
                    ) == before[move_number as int] && mut_ref_future(asked) == *chooser
                        && mut_ref_future(game) == *state)));
                }
                return PlayedGame { moves: move_number, result };
            }
            let active_player = state.public.active_player;
            let search_seed = seed.wrapping_add(move_number as u64);
            let ghost chooser_before = *chooser;
            let ghost state_before = *state;
            let action = match chooser.choose_move(
                &self.engine,
                state,
                active_player,
                move_number,
                search_seed,
            ) {
                Some(action) => action,
                None => {
                    assert(exists|asked: &mut C, game: &mut GameState| #[trigger]
                        call_ensures(
                            C::choose_move,
                            (
                                asked,
                                &self.rules(),
                                game,
                                mut_ref_current(game).public.active_player,
                                move_number,
                                seed.wrapping_add(move_number as u64),
                            ),
                            None,
                        ) && mut_ref_current(asked) == chooser_before && mut_ref_current(game)
                            == state_before && mut_ref_future(asked) == *chooser && mut_ref_future(
                            game,
                        ) == *state);
                    proof {
                        assert(passed(before, choosers));
                    }
                    let result = self.engine.is_terminal(state);
                    proof {
                        assert(goes_on(&self.rules(), &before[move_number as int]));
                        assert(exists|before: Seq<GameState>, choosers: Seq<C>| #[trigger]
                passed(before, choosers) && before.len() == move_number + 1 && choosers.len()
                    == move_number + 1 && before[0] == *old(state) && choosers[0] == *old(chooser)
                    && (forall|k: int|
                    0 <= k < move_number ==> goes_on(&self.rules(), &#[trigger] before[k])
                        && exists|
                        asked: &mut C,
                        game: &mut GameState,
                        action: Action,
                        copy: &mut E,
                        board: &mut GameState,
                    |
                        #![trigger
                            call_ensures(
                                C::choose_move,
                                (
                                    asked,
                                    &self.rules(),
                                    game,
                                    mut_ref_current(game).public.active_player,
                                    k as usize,
                                    seed.wrapping_add(k as u64),
                                ),
                                Some(action),
                            ),
                            call_ensures(
                                E::apply_action,
                                (copy, board, mut_ref_current(game).public.active_player, &action),
                                (),
                            )
                        ]
                        call_ensures(
                            C::choose_move,
                            (
                                asked,
                                &self.rules(),
                                game,
                                mut_ref_current(game).public.active_player,
                                k as usize,
                                seed.wrapping_add(k as u64),
                            ),
                            Some(action),
                        ) && call_ensures(E::clone, (&self.rules(),), mut_ref_current(copy))
                            && call_ensures(
                            E::apply_action,
                            (copy, board, mut_ref_current(game).public.active_player, &action),
                            (),
                        )
                            && mut_ref_current(asked) == choosers[k] && mut_ref_current(game)
                            == before[k] && mut_ref_future(asked) == choosers[k + 1]
                            && mut_ref_current(board) == mut_ref_future(game) && mut_ref_future(
                            board,
                        ) == before[k + 1]) && ((before[move_number as int] == *state
                    && choosers[move_number as int] == *chooser && (result is Some
                    || move_number == self.move_limit())) || (goes_on(
                    &self.rules(),
                    &before[move_number as int],
                ) && exists|asked: &mut C, game: &mut GameState| #[trigger]
                    call_ensures(
                        C::choose_move,
                        (
                            asked,
                            &self.rules(),
                            game,
                            mut_ref_current(game).public.active_player,
                            move_number,
                            seed.wrapping_add(move_number as u64),
                        ),
                        None,
                    ) && mut_ref_current(asked) == choosers[move_number as int] && mut_ref_current(
                        game,
                    ) == before[move_number as int] && mut_ref_future(asked) == *chooser
                        && mut_ref_future(game) == *state)));
                    }
                    return PlayedGame { moves: move_number, result };
                },
            };
            let ghost state_chosen = *state;
            let mut engine = self.engine.clone();
            let ghost engine_copy = engine;
            engine.apply_action(state, active_player, &action);
            proof {
                let (asked, game) = choose|asked: &mut C, game: &mut GameState| #[trigger]
                    call_ensures(
                        C::choose_move,
                        (asked, &self.engine, game, active_player, move_number, search_seed),
                        Some(action),
                    ) && mut_ref_current(asked) == chooser_before && mut_ref_current(game)
                        == state_before && mut_ref_future(asked) == *chooser && mut_ref_future(game)
                        == state_chosen;
                let (copy, board) = choose|copy: &mut E, board: &mut GameState| #[trigger]
                    call_ensures(E::apply_action, (copy, board, active_player, &action), ())
                        && mut_ref_current(copy) == engine_copy && mut_ref_current(board)
                        == state_chosen && mut_ref_future(board) == *state;
                let earlier = before;
                let earlier_choosers = choosers;
                before = before.push(*state);
                choosers = choosers.push(*chooser);
                assert forall|k: int| 0 <= k < move_number + 1 implies goes_on(
                    &self.rules(),
                    &#[trigger] before[k],
                ) && exists|
                        asked: &mut C,
                        game: &mut GameState,
                        action: Action,
                        copy: &mut E,
                        board: &mut GameState,
                    |
                        #![trigger
                            call_ensures(
                                C::choose_move,
                                (
                                    asked,
                                    &self.rules(),
                                    game,
                                    mut_ref_current(game).public.active_player,
                                    k as usize,
                                    seed.wrapping_add(k as u64),
                                ),
                                Some(action),
                            ),
                            call_ensures(
                                E::apply_action,
                                (copy, board, mut_ref_current(game).public.active_player, &action),
                                (),
                            )
                        ]
                        call_ensures(
                            C::choose_move,
                            (
                                asked,
                                &self.rules(),
                                game,
                                mut_ref_current(game).public.active_player,
                                k as usize,
                                seed.wrapping_add(k as u64),
                            ),
                            Some(action),
                        ) && call_ensures(E::clone, (&self.rules(),), mut_ref_current(copy))
                            && call_ensures(
                            E::apply_action,
                            (copy, board, mut_ref_current(game).public.active_player, &action),
                            (),
                        )
                        && mut_ref_current(asked) == choosers[k] && mut_ref_current(game)
                        == before[k] && mut_ref_future(asked) == choosers[k + 1]
                        && mut_ref_current(board) == mut_ref_future(game) && mut_ref_future(board)
                        == before[k + 1] by {
                    if k < move_number {
                        assert(before[k] == earlier[k]);
                        assert(before[k + 1] == earlier[k + 1]);
                        assert(choosers[k] == earlier_choosers[k]);
                        assert(choosers[k + 1] == earlier_choosers[k + 1]);
                        assert(goes_on(&self.rules(), &earlier[k]));
                    } else {
                        assert(before[k] == state_before);
                        assert(before[k + 1] == *state);
                        assert(choosers[k] == chooser_before);
                        assert(choosers[k + 1] == *chooser);
                        assert(goes_on(&self.rules(), &state_before));
                        assert(call_ensures(
                            C::choose_move,
                            (
                                asked,
                                &self.rules(),
                                game,
                                mut_ref_current(game).public.active_player,
                                k as usize,
                                seed.wrapping_add(k as u64),
                            ),
                            Some(action),
                        ));
                        assert(call_ensures(
                            E::apply_action,
                            (copy, board, mut_ref_current(game).public.active_player, &action),
                            (),
                        ));
                        assert(call_ensures(E::clone, (&self.rules(),), mut_ref_current(copy)));
                    }
                }
            }
            move_number = move_number + 1;
        }
        proof {
            assert(passed(before, choosers));
        }
        let result = self.engine.is_terminal(state);
        assert(exists|before: Seq<GameState>, choosers: Seq<C>| #[trigger]
                passed(before, choosers) && before.len() == move_number + 1 && choosers.len()
                    == move_number + 1 && before[0] == *old(state) && choosers[0] == *old(chooser)
                    && (forall|k: int|
                    0 <= k < move_number ==> goes_on(&self.rules(), &#[trigger] before[k])
                        && exists|
                        asked: &mut C,
                        game: &mut GameState,
                        action: Action,
                        copy: &mut E,
                        board: &mut GameState,
                    |
                        #![trigger
                            call_ensures(
                                C::choose_move,
                                (
                                    asked,
                                    &self.rules(),
                                    game,
                                    mut_ref_current(game).public.active_player,
                                    k as usize,
                                    seed.wrapping_add(k as u64),
                                ),
                                Some(action),
                            ),
                            call_ensures(
                                E::apply_action,
                                (copy, board, mut_ref_current(game).public.active_player, &action),
                                (),
                            )
                        ]
                        call_ensures(
                            C::choose_move,
                            (
                                asked,
                                &self.rules(),
                                game,
                                mut_ref_current(game).public.active_player,
                                k as usize,
                                seed.wrapping_add(k as u64),
                            ),
                            Some(action),
                        ) && call_ensures(E::clone, (&self.rules(),), mut_ref_current(copy))
                            && call_ensures(
                            E::apply_action,
                            (copy, board, mut_ref_current(game).public.active_player, &action),
                            (),
                        )
                            && mut_ref_current(asked) == choosers[k] && mut_ref_current(game)
                            == before[k] && mut_ref_future(asked) == choosers[k + 1]
                            && mut_ref_current(board) == mut_ref_future(game) && mut_ref_future(
                            board,
                        ) == before[k + 1]) && ((before[move_number as int] == *state
                    && choosers[move_number as int] == *chooser && (result is Some
                    || move_number == self.move_limit())) || (goes_on(
                    &self.rules(),
                    &before[move_number as int],
                ) && exists|asked: &mut C, game: &mut GameState| #[trigger]
                    call_ensures(
                        C::choose_move,
                        (
                            asked,
                            &self.rules(),
                            game,
                            mut_ref_current(game).public.active_player,
                            move_number,
                            seed.wrapping_add(move_number as u64),
                        ),
                        None,
                    ) && mut_ref_current(asked) == choosers[move_number as int] && mut_ref_current(
                        game,
                    ) == before[move_number as int] && mut_ref_future(asked) == *chooser
                        && mut_ref_future(game) == *state)));
        PlayedGame { moves: move_number, result }
    }
}

} // verus!
