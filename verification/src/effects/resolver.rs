//! Resolving effects against a game.
//!
//! What an effect does is given as a relation between the game before and
//! after, over plain values: `resolves`. Most effects have one outcome. A
//! shuffle has many, and so has every effect that asks the game something:
//! which zone a player draws from, or whether a condition holds. For those
//! the relation allows whatever the generator or the game answers.

use super::effect::{effect_views, lemma_batch_view, Effect, EffectBatch, EffectEntry, EffectView};
use crate::base::config::ZoneId;
use crate::base::entity::EntityId;
use crate::base::player::PlayerId;
use crate::base::state::{GameState, GameStateView, PublicStateView};
use crate::zones::manager::{
    lemma_with_added_wf, lemma_without_top_wf, lemma_without_wf, ZonePosition,
};
use crate::base::rng::arranged;
use vstd::prelude::*;

verus! {

/// How resolving one effect on one target ended.
#[derive(Clone, Debug)]
pub enum ResolveResult {
    /// The effect was applied.
    Success,
    /// The effect could not be applied; the text says why.
    Failed(String),
    /// The effect's condition did not hold.
    Skipped,
}

/// What a game tells the resolver: where each player draws from and to,
/// and whether a named condition holds. None of the answers may depend on
/// anything but the arguments, and none changes the state.
pub trait ResolverContext {
    /// The zone a player draws from, where an effect names none.
    fn get_deck_zone(&self, player: PlayerId) -> ZoneId;

    /// The zone a player draws to, where an effect names none.
    fn get_hand_zone(&self, player: PlayerId) -> ZoneId;

    /// Whether the condition named `key` holds in `state`.
    fn eval_condition(&self, key: &str, state: &GameState) -> bool;
}

/// A context for games in which all players draw from one zone into one
/// zone and no condition ever holds.
#[derive(Clone, Copy, Debug)]
pub struct SharedZones {
    pub deck: ZoneId,
    pub hand: ZoneId,
}

impl SharedZones {
    /// A context with the given deck and hand zones.
    pub fn new(deck: ZoneId, hand: ZoneId) -> (context: Self)
        ensures
            context.deck == deck,
            context.hand == hand,
    {
        SharedZones { deck, hand }
    }
}

impl ResolverContext for SharedZones {
    fn get_deck_zone(&self, player: PlayerId) -> (zone: ZoneId)
        ensures
            zone == self.deck,
    {
        self.deck
    }

    fn get_hand_zone(&self, player: PlayerId) -> (zone: ZoneId)
        ensures
            zone == self.hand,
    {
        self.hand
    }

    fn eval_condition(&self, key: &str, state: &GameState) -> (holds: bool)
        ensures
            !holds,
    {
        false
    }
}

/// A context made of two functions: where a player draws from, and where
/// to. No condition holds in it.
pub struct ZoneFns<D: Fn(PlayerId) -> ZoneId, H: Fn(PlayerId) -> ZoneId> {
    deck: D,
    hand: H,
}

impl<D: Fn(PlayerId) -> ZoneId, H: Fn(PlayerId) -> ZoneId> ZoneFns<D, H> {
    /// The functions can be asked about every player.
    #[verifier::type_invariant]
    spec fn askable(self) -> bool {
        &&& forall|player: PlayerId| #[trigger] call_requires(self.deck, (player,))
        &&& forall|player: PlayerId| #[trigger] call_requires(self.hand, (player,))
    }

    /// The function that says where a player draws from.
    pub closed spec fn deck_fn(self) -> D {
        self.deck
    }

    /// The function that says where a player draws to.
    pub closed spec fn hand_fn(self) -> H {
        self.hand
    }

    /// A context of the two functions, which can be asked about every
    /// player.
    pub fn new(deck: D, hand: H) -> (context: Self)
        requires
            forall|player: PlayerId| #[trigger] call_requires(deck, (player,)),
            forall|player: PlayerId| #[trigger] call_requires(hand, (player,)),
        ensures
            context.deck_fn() == deck,
            context.hand_fn() == hand,
    {
        ZoneFns { deck, hand }
    }

    /// The same context with a function that says whether a named
    /// condition holds in a state.
    pub fn with_condition_eval<C: Fn(&str, &GameState) -> bool>(self, holds: C) -> (context:
        ConditionFns<D, H, C>)
        requires
            forall|key: &str, state: &GameState| #[trigger] call_requires(holds, (key, state)),
        ensures
            context.deck_fn() == self.deck_fn(),
            context.hand_fn() == self.hand_fn(),
            context.condition_fn() == holds,
    {
        proof {
            use_type_invariant(&self);
        }
        ConditionFns { deck: self.deck, hand: self.hand, holds }
    }
}

impl<D: Fn(PlayerId) -> ZoneId, H: Fn(PlayerId) -> ZoneId> ResolverContext for ZoneFns<D, H> {
    fn get_deck_zone(&self, player: PlayerId) -> (zone: ZoneId)
        ensures
            call_ensures(self.deck_fn(), (player,), zone),
    {
        proof {
            use_type_invariant(self);
        }
        (self.deck)(player)
    }

    fn get_hand_zone(&self, player: PlayerId) -> (zone: ZoneId)
        ensures
            call_ensures(self.hand_fn(), (player,), zone),
    {
        proof {
            use_type_invariant(self);
        }
        (self.hand)(player)
    }

    fn eval_condition(&self, key: &str, state: &GameState) -> (holds: bool)
        ensures
            !holds,
    {
        false
    }
}

/// A context made of three functions: where a player draws from, where
/// to, and whether a named condition holds in a state.
pub struct ConditionFns<
    D: Fn(PlayerId) -> ZoneId,
    H: Fn(PlayerId) -> ZoneId,
    C: Fn(&str, &GameState) -> bool,
> {
    deck: D,
    hand: H,
    holds: C,
}

impl<
    D: Fn(PlayerId) -> ZoneId,
    H: Fn(PlayerId) -> ZoneId,
    C: Fn(&str, &GameState) -> bool,
> ConditionFns<D, H, C> {
    /// The functions can be asked about every player, name and state.
    #[verifier::type_invariant]
    spec fn askable(self) -> bool {
        &&& forall|player: PlayerId| #[trigger] call_requires(self.deck, (player,))
        &&& forall|player: PlayerId| #[trigger] call_requires(self.hand, (player,))
        &&& forall|key: &str, state: &GameState| #[trigger] call_requires(self.holds, (key, state))
    }

    /// The function that says where a player draws from.
    pub closed spec fn deck_fn(self) -> D {
        self.deck
    }

    /// The function that says where a player draws to.
    pub closed spec fn hand_fn(self) -> H {
        self.hand
    }

    /// The function that says whether a condition holds.
    pub closed spec fn condition_fn(self) -> C {
        self.holds
    }
}

impl<
    D: Fn(PlayerId) -> ZoneId,
    H: Fn(PlayerId) -> ZoneId,
    C: Fn(&str, &GameState) -> bool,
> ResolverContext for ConditionFns<D, H, C> {
    fn get_deck_zone(&self, player: PlayerId) -> (zone: ZoneId)
        ensures
            call_ensures(self.deck_fn(), (player,), zone),
    {
        proof {
            use_type_invariant(self);
        }
        (self.deck)(player)
    }

    fn get_hand_zone(&self, player: PlayerId) -> (zone: ZoneId)
        ensures
            call_ensures(self.hand_fn(), (player,), zone),
    {
        proof {
            use_type_invariant(self);
        }
        (self.hand)(player)
    }

    fn eval_condition(&self, key: &str, state: &GameState) -> (holds: bool)
        ensures
            call_ensures(self.condition_fn(), (key, state), holds),
    {
        proof {
            use_type_invariant(self);
        }
        (self.holds)(key, state)
    }
}

/// The result is a failure with the given reason.
pub open spec fn failed_with(result: ResolveResult, reason: Seq<char>) -> bool {
    result matches ResolveResult::Failed(text) && text@ == reason
}

/// The player that a target stands for, if it stands for one.
pub open spec fn player_target(state: GameStateView, target: EntityId) -> Option<PlayerId> {
    match target.spec_as_player_index(state.public.player_count) {
        Some(index) => Some(PlayerId(index)),
        None => None,
    }
}

/// The game with another public state.
pub open spec fn with_public(state: GameStateView, public: PublicStateView) -> GameStateView {
    GameStateView { public, ..state }
}

/// The game after a card moved to a zone: the zones say so, and so does
/// the card's instance, if it has one.
pub open spec fn moved_card(
    state: GameStateView,
    target: EntityId,
    destination: ZoneId,
    position: Option<ZonePosition>,
) -> GameStateView {
    GameStateView {
        zones: state.zones.moved(target, destination, position),
        cards: if state.cards.contains_key(target.0) {
            state.cards.insert(target.0, state.cards[target.0].in_zone(destination))
        } else {
            state.cards
        },
        ..state
    }
}

/// The game with `value` stored for a card under `key`.
pub open spec fn with_card_value(
    state: GameStateView,
    target: EntityId,
    key: Seq<char>,
    value: i64,
) -> GameStateView {
    GameStateView {
        cards: state.cards.insert(target.0, state.cards[target.0].with_value(key, value)),
        ..state
    }
}

/// Whether a player can draw from `deck`: it has a card on top, and the
/// player's hand size can still count one more.
pub open spec fn can_draw(state: GameStateView, player: PlayerId, deck: ZoneId) -> bool {
    state.zones.order(deck).len() > 0 && state.public.hand_sizes[player.0 as int] < u32::MAX
}

/// The game after a player drew one card from `deck` to `hand`: the top
/// card of `deck` is in `hand`, its instance says so, the card is at the
/// end of the player's hand, and the player's hand size is one more. An
/// entity without a card instance moves as a card does, but is no card:
/// the hand and its size stay. Nothing changes where the player cannot
/// draw.
pub open spec fn draw_step(state: GameStateView, player: PlayerId, deck: ZoneId, hand: ZoneId) -> GameStateView {
    if !can_draw(state, player, deck) {
        state
    } else {
        let card = state.zones.order(deck).last();
        let zones = state.zones.without_top(deck).with_added(card, hand, None);
        if state.cards.contains_key(card.0) {
            GameStateView {
                zones,
                cards: state.cards.insert(card.0, state.cards[card.0].in_zone(hand)),
                hands: state.hands.update(
                    player.0 as int,
                    state.hands[player.0 as int].push(state.cards[card.0].card_id),
                ),
                public: state.public.with_hand_size(
                    player,
                    (state.public.hand_sizes[player.0 as int] + 1) as u32,
                ),
                ..state
            }
        } else {
            GameStateView { zones, ..state }
        }
    }
}

/// The game after a player drew up to `count` cards, one by one.
pub open spec fn drawn(
    state: GameStateView,
    player: PlayerId,
    deck: ZoneId,
    hand: ZoneId,
    count: nat,
) -> GameStateView
    decreases count,
{
    if count == 0 {
        state
    } else {
        draw_step(drawn(state, player, deck, hand, (count - 1) as nat), player, deck, hand)
    }
}

/// The game after a shuffle of a zone: the zone holds the same cards in
/// the order that the generator's shuffle gives to as many items, the
/// generator has moved on as that shuffle moves it, and nothing else has
/// changed. Nothing at all changes where the zone keeps no order.
pub open spec fn shuffled(pre: GameStateView, zone: ZoneId, post: GameStateView) -> bool {
    &&& pre.zones.reordered(zone, post.zones)
    &&& post.public == pre.public
    &&& post.hands == pre.hands
    &&& post.decks == pre.decks
    &&& post.cards == pre.cards
    &&& post.next_entity_id == pre.next_entity_id
    &&& post.rng.seed == pre.rng.seed
    &&& post.rng.fork_counter == pre.rng.fork_counter
    &&& !pre.zones.is_ordered(zone) ==> post == pre
    &&& pre.zones.is_ordered(zone) ==> arranged(
        pre.zones.order(zone),
        post.zones.order(zone),
        crate::base::rng::shuffled(
            pre.rng.seed,
            pre.rng.word_pos,
            pre.zones.order(zone).len(),
        ).0,
    ) && post.rng.word_pos == crate::base::rng::shuffled(
        pre.rng.seed,
        pre.rng.word_pos,
        pre.zones.order(zone).len(),
    ).1
}

/// A draw of `count` cards for a player led from `pre` to `post` and gave
/// `result`: the player drew from `deck` to `hand`, which are the zones the
/// effect names, where it names them; and the draw succeeded if a card was
/// drawn.
pub open spec fn draws(
    pre: GameStateView,
    player: PlayerId,
    deck: ZoneId,
    hand: ZoneId,
    count: usize,
    from_zone: Option<ZoneId>,
    to_zone: Option<ZoneId>,
    post: GameStateView,
    result: ResolveResult,
) -> bool {
    &&& from_zone matches Some(zone) ==> deck == zone
    &&& to_zone matches Some(zone) ==> hand == zone
    &&& post == drawn(pre, player, deck, hand, count as nat)
    &&& if count > 0 && can_draw(pre, player, deck) {
        result is Success
    } else {
        failed_with(result, "Deck was empty"@)
    }
}

/// Whether the game's context can say `holds` of the condition named
/// `key` in a game that reads as `state`.
pub open spec fn answers<C: ResolverContext>(
    context: &C,
    key: Seq<char>,
    state: GameStateView,
    holds: bool,
) -> bool {
    exists|name: &str, game: GameState| #[trigger]
        call_ensures(C::eval_condition, (context, name, &game), holds) && name@ == key && game@
            == state
}

/// Marks the state and the result that a step of a run went through.
/// It holds of everything: it only gives the prover a term to find the
/// values by.
pub open spec fn went(state: GameStateView, result: ResolveResult) -> bool {
    true
}

/// Marks the state and the results that a run went through.
/// It holds of everything: it only gives the prover a term to find the
/// values by.
pub open spec fn gave(state: GameStateView, results: Seq<ResolveResult>) -> bool {
    true
}

/// Marks the zones that a draw went between.
/// It holds of everything: it only gives the prover a term to find the
/// values by.
pub open spec fn drew_between(deck: ZoneId, hand: ZoneId) -> bool {
    true
}

/// Marks how far a run got, and the state it reached.
/// It holds of everything: it only gives the prover a term to find the
/// values by.
pub open spec fn reached(done: int, state: GameStateView) -> bool {
    true
}

/// Resolving `effect` on `target` can lead from `pre` to `post` and give
/// `result`.
pub open spec fn resolves<C: ResolverContext>(
    context: &C,
    pre: GameStateView,
    effect: EffectView,
    target: EntityId,
    post: GameStateView,
    result: ResolveResult,
) -> bool
    decreases effect, 0int,
{
    match effect {
        EffectView::ModifyPlayerState { key, delta } => match player_target(pre, target) {
            Some(player) => result is Success && post == with_public(
                pre,
                pre.public.with_player_value(
                    player,
                    key,
                    pre.public.player_value(player, key, 0).wrapping_add(delta),
                ),
            ),
            None => failed_with(result, "Target is not a player"@) && post == pre,
        },
        EffectView::SetPlayerState { key, value } => match player_target(pre, target) {
            Some(player) => result is Success && post == with_public(
                pre,
                pre.public.with_player_value(player, key, value),
            ),
            None => failed_with(result, "Target is not a player"@) && post == pre,
        },
        EffectView::MoveCard { destination, position } => if target.spec_is_player(
            pre.public.player_count,
        ) {
            failed_with(result, "Target is a player, not a card"@) && post == pre
        } else {
            match pre.card(target) {
                Some(card) => result is Success && post == moved_card(
                    pre,
                    target,
                    destination,
                    position,
                ),
                None => failed_with(result, "Card not found"@) && post == pre,
            }
        },
        EffectView::DrawCards { count, from_zone, to_zone } => match player_target(pre, target) {
            Some(player) => exists|deck: ZoneId, hand: ZoneId| #[trigger]
                drew_between(deck, hand) && (from_zone is None ==> call_ensures(
                    C::get_deck_zone,
                    (context, player),
                    deck,
                )) && (to_zone is None ==> call_ensures(C::get_hand_zone, (context, player), hand))
                    && draws(
                    pre,
                    player,
                    deck,
                    hand,
                    count,
                    from_zone,
                    to_zone,
                    post,
                    result,
                ),
            None => failed_with(result, "Target is not a player"@) && post == pre,
        },
        EffectView::ShuffleZone { zone } => result is Success && shuffled(pre, zone, post),
        EffectView::ModifyCardState { key, delta } => if target.spec_is_player(
            pre.public.player_count,
        ) {
            failed_with(result, "Target is a player, not a card"@) && post == pre
        } else {
            match pre.card(target) {
                Some(card) => result is Success && post == with_card_value(
                    pre,
                    target,
                    key,
                    card.value(key, 0).wrapping_add(delta),
                ),
                None => failed_with(result, "Card not found"@) && post == pre,
            }
        },
        EffectView::SetCardState { key, value } => if target.spec_is_player(
            pre.public.player_count,
        ) {
            failed_with(result, "Target is a player, not a card"@) && post == pre
        } else {
            match pre.card(target) {
                Some(card) => result is Success && post == with_card_value(pre, target, key, value),
                None => failed_with(result, "Card not found"@) && post == pre,
            }
        },
        EffectView::ModifyTurnState { key, delta } => result is Success && post == with_public(
            pre,
            pre.public.with_turn_value(key, pre.public.turn_value(key, 0).wrapping_add(delta)),
        ),
        EffectView::SetTurnState { key, value } => result is Success && post == with_public(
            pre,
            pre.public.with_turn_value(key, value),
        ),
        EffectView::Batch(effects) => exists|done: int, mid: GameStateView| #[trigger]
            reached(done, mid) && runs(context, pre, effects, done, target, mid) && 0 <= done
                <= effects.len() && if done == effects.len() {
                post == mid && result is Success
            } else {
                result is Failed && resolves(context, mid, effects[done], target, post, result)
            },
        EffectView::Conditional { condition_key, effect } => exists|holds: bool| #[trigger]
            answers(context, condition_key, pre, holds) && if holds {
                resolves(context, pre, *effect, target, post, result)
            } else {
                result is Skipped && post == pre
            },
    }
}

/// Resolving the first `done` of `effects` on `target`, none of which
/// failed, can lead from `pre` to `mid`.
pub open spec fn runs<C: ResolverContext>(
    context: &C,
    pre: GameStateView,
    effects: Seq<EffectView>,
    done: int,
    target: EntityId,
    mid: GameStateView,
) -> bool
    decreases effects, done,
{
    if done <= 0 || done > effects.len() {
        mid == pre
    } else {
        exists|before: GameStateView, result: ResolveResult| #[trigger]
            went(before, result) && runs(context, pre, effects, done - 1, target, before) && resolves(context, before,
                effects[done - 1],
                target,
                mid,
                result,
            ) && !(result is Failed)
    }
}

/// Resolving an effect without a target can lead from `pre` to `post` and
/// give `result`. Only shuffles and changes to the turn's values can be
/// resolved so.
pub open spec fn zone_resolves(
    pre: GameStateView,
    effect: EffectView,
    post: GameStateView,
    result: ResolveResult,
) -> bool {
    match effect {
        EffectView::ShuffleZone { zone } => result is Success && shuffled(pre, zone, post),
        EffectView::ModifyTurnState { key, delta } => result is Success && post == with_public(
            pre,
            pre.public.with_turn_value(key, pre.public.turn_value(key, 0).wrapping_add(delta)),
        ),
        EffectView::SetTurnState { key, value } => result is Success && post == with_public(
            pre,
            pre.public.with_turn_value(key, value),
        ),
        _ => failed_with(result, "Effect requires a target"@) && post == pre,
    }
}

/// Resolving `effect` on the first `done` of `targets` can lead from `pre`
/// to `mid` and give `results`, one for each target in order.
pub open spec fn targets_run<C: ResolverContext>(
    context: &C,
    pre: GameStateView,
    effect: EffectView,
    targets: Seq<EntityId>,
    done: int,
    mid: GameStateView,
    results: Seq<ResolveResult>,
) -> bool
    decreases done,
{
    if done <= 0 {
        mid == pre && results == Seq::<ResolveResult>::empty()
    } else {
        exists|before: GameStateView, earlier: Seq<ResolveResult>, result: ResolveResult|
            #![trigger gave(before, earlier), went(before, result)]
            targets_run(context, pre, effect, targets, done - 1, before, earlier) && resolves(context, before,
                effect,
                targets[done - 1],
                mid,
                result,
            ) && results == earlier.push(result)
    }
}

/// Resolving one entry of a batch can lead from `pre` to `post` and give
/// `results`: one result for each target in order, or one result for the
/// effect resolved without a target where the entry has none.
pub open spec fn entry_resolves<C: ResolverContext>(
    context: &C,
    pre: GameStateView,
    entry: EffectEntry,
    post: GameStateView,
    results: Seq<ResolveResult>,
) -> bool {
    if entry.targets@.len() == 0 {
        exists|result: ResolveResult| #[trigger]
            went(post, result) && zone_resolves(pre, entry.effect@, post, result) && results
                == seq![result]
    } else {
        targets_run(context, pre,
            entry.effect@,
            entry.targets@,
            entry.targets@.len() as int,
            post,
            results,
        )
    }
}

/// Resolving the first `done` entries of a batch can lead from `pre` to
/// `mid` and give `results`, in order.
pub open spec fn entries_run<C: ResolverContext>(
    context: &C,
    pre: GameStateView,
    entries: Seq<EffectEntry>,
    done: int,
    mid: GameStateView,
    results: Seq<ResolveResult>,
) -> bool
    decreases done,
{
    if done <= 0 {
        mid == pre && results == Seq::<ResolveResult>::empty()
    } else {
        exists|before: GameStateView, earlier: Seq<ResolveResult>, added: Seq<ResolveResult>|
            #![trigger gave(before, earlier), gave(mid, added)]
            entries_run(context, pre, entries, done - 1, before, earlier) && entry_resolves(context, before,
                entries[done - 1],
                mid,
                added,
            ) && results == earlier + added
    }
}

/// Once the player cannot draw, drawing more changes nothing.
pub proof fn lemma_drawn_stops(
    state: GameStateView,
    player: PlayerId,
    deck: ZoneId,
    hand: ZoneId,
    done: nat,
    count: nat,
)
    requires
        done <= count,
        !can_draw(drawn(state, player, deck, hand, done), player, deck),
    ensures
        drawn(state, player, deck, hand, count) == drawn(state, player, deck, hand, done),
    decreases count,
{
    if done < count {
        lemma_drawn_stops(state, player, deck, hand, done, (count - 1) as nat);
    }
}

/// Drawing keeps a well-formed game well formed, keeps every card
/// instance in agreement with the zones, and keeps every hand size the
/// length of the hand.
pub proof fn lemma_draw_step_keeps(state: GameStateView, player: PlayerId, deck: ZoneId, hand: ZoneId)
    requires
        state.wf(),
        (player.0 as int) < state.public.player_count,
    ensures
        draw_step(state, player, deck, hand).wf(),
        state.cards_placed() ==> draw_step(state, player, deck, hand).cards_placed(),
        state.hands_consistent() ==> draw_step(state, player, deck, hand).hands_consistent(),
{
    if can_draw(state, player, deck) {
        let card = state.zones.order(deck).last();
        lemma_without_top_wf(state.zones, deck);
        lemma_without_wf(state.zones, card);
        lemma_with_added_wf(state.zones.without_top(deck), card, hand, None);
    }
}

/// Moving a card keeps a well-formed game well formed, and keeps every
/// card instance in agreement with the zones.
pub proof fn lemma_moved_card_keeps(
    state: GameStateView,
    target: EntityId,
    destination: ZoneId,
    position: Option<ZonePosition>,
)
    requires
        state.wf(),
    ensures
        moved_card(state, target, destination, position).wf(),
        state.cards_placed() ==> moved_card(state, target, destination, position).cards_placed(),
{
    match state.zones.zone_of(target) {
        None => {},
        Some(from) => {
            if from != destination {
                lemma_without_wf(state.zones, target);
                lemma_with_added_wf(state.zones.without(target), target, destination, position);
            }
        },
    }
}

/// One more effect resolved without failing extends a run.
pub proof fn lemma_runs_step<C: ResolverContext>(
    context: &C,
    pre: GameStateView,
    effects: Seq<EffectView>,
    done: int,
    target: EntityId,
    before: GameStateView,
    mid: GameStateView,
    result: ResolveResult,
)
    requires
        0 <= done < effects.len(),
        runs(context, pre, effects, done, target, before),
        resolves(context, before, effects[done], target, mid, result),
        !(result is Failed),
    ensures
        runs(context, pre, effects, done + 1, target, mid),
{
    reveal_with_fuel(runs, 2);
    assert(went(before, result));
}

/// A run that ends with a failure, or with the last effect, resolves the
/// batch.
pub proof fn lemma_batch_resolves<C: ResolverContext>(
    context: &C,
    pre: GameStateView,
    effects: Seq<EffectView>,
    done: int,
    target: EntityId,
    mid: GameStateView,
    post: GameStateView,
    result: ResolveResult,
)
    requires
        0 <= done <= effects.len(),
        runs(context, pre, effects, done, target, mid),
        if done == effects.len() {
            post == mid && result is Success
        } else {
            result is Failed && resolves(context, mid, effects[done], target, post, result)
        },
    ensures
        resolves(context, pre, EffectView::Batch(effects), target, post, result),
{
    reveal_with_fuel(resolves, 2);
    assert(reached(done, mid));
}

/// A draw for the player that the target stands for resolves the draw
/// effect.
pub proof fn lemma_draw_resolves<C: ResolverContext>(
    context: &C,
    pre: GameStateView,
    count: usize,
    from_zone: Option<ZoneId>,
    to_zone: Option<ZoneId>,
    target: EntityId,
    player: PlayerId,
    deck: ZoneId,
    hand: ZoneId,
    post: GameStateView,
    result: ResolveResult,
)
    requires
        player_target(pre, target) == Some(player),
        from_zone is None ==> call_ensures(C::get_deck_zone, (context, player), deck),
        to_zone is None ==> call_ensures(C::get_hand_zone, (context, player), hand),
        draws(pre, player, deck, hand, count, from_zone, to_zone, post, result),
    ensures
        resolves(context, pre, EffectView::DrawCards { count, from_zone, to_zone }, target, post, result),
{
    reveal_with_fuel(resolves, 2);
    assert(drew_between(deck, hand));
}

/// An inner effect resolved where the game's context says the condition
/// holds, or skipped where it says not, resolves the conditional effect.
pub proof fn lemma_conditional_resolves<C: ResolverContext>(
    context: &C,
    pre: GameStateView,
    key: Seq<char>,
    inner: EffectView,
    target: EntityId,
    holds: bool,
    post: GameStateView,
    result: ResolveResult,
)
    requires
        answers(context, key, pre, holds),
        if holds {
            resolves(context, pre, inner, target, post, result)
        } else {
            result is Skipped && post == pre
        },
    ensures
        resolves(
            context,
            pre,
            EffectView::Conditional { condition_key: key, effect: Box::new(inner) },
            target,
            post,
            result,
        ),
{
    reveal_with_fuel(resolves, 2);
    let outer = EffectView::Conditional { condition_key: key, effect: Box::new(inner) };
    assert(*outer->effect == inner);
    assert(outer->condition_key == key);
    assert(exists|h: bool| #[trigger]
        answers(context, key, pre, h) && if h {
            resolves(context, pre, inner, target, post, result)
        } else {
            result is Skipped && post == pre
        });
    assert(resolves(context, pre, outer, target, post, result) == (exists|h: bool| #[trigger]
        answers(context, key, pre, h) && if h {
            resolves(context, pre, inner, target, post, result)
        } else {
            result is Skipped && post == pre
        }));
}

/// One more target resolved extends the run over the targets.
pub proof fn lemma_targets_step<C: ResolverContext>(
    context: &C,
    pre: GameStateView,
    effect: EffectView,
    targets: Seq<EntityId>,
    done: int,
    before: GameStateView,
    earlier: Seq<ResolveResult>,
    mid: GameStateView,
    result: ResolveResult,
)
    requires
        0 <= done < targets.len(),
        targets_run(context, pre, effect, targets, done, before, earlier),
        resolves(context, before, effect, targets[done], mid, result),
    ensures
        targets_run(context, pre, effect, targets, done + 1, mid, earlier.push(result)),
{
    reveal_with_fuel(targets_run, 2);
    assert(gave(before, earlier) && went(before, result));
}

/// One more entry resolved extends the run over the entries.
pub proof fn lemma_entries_step<C: ResolverContext>(
    context: &C,
    pre: GameStateView,
    entries: Seq<EffectEntry>,
    done: int,
    before: GameStateView,
    earlier: Seq<ResolveResult>,
    mid: GameStateView,
    added: Seq<ResolveResult>,
)
    requires
        0 <= done < entries.len(),
        entries_run(context, pre, entries, done, before, earlier),
        entry_resolves(context, before, entries[done], mid, added),
    ensures
        entries_run(context, pre, entries, done + 1, mid, earlier + added),
{
    reveal_with_fuel(entries_run, 2);
    assert(gave(before, earlier) && gave(mid, added));
}

/// The resolver of effects.
pub struct EffectResolver;

impl EffectResolver {
    /// Moves a card to a zone and makes its instance say so.
    pub fn move_card(
        state: &mut GameState,
        target: EntityId,
        destination: ZoneId,
        position: Option<ZonePosition>,
    )
        ensures
            final(state)@ == moved_card(old(state)@, target, destination, position),
    {
        let _ = state.zones.move_to_zone(target, destination, position);
        match state.get_card_mut(target) {
            Some(card) => {
                card.zone = destination;
            },
            None => {},
        }
    }

    /// Draws one card for a player from `deck` to `hand` and says whether
    /// there was one to draw.
    pub fn draw_one(state: &mut GameState, player: PlayerId, deck: ZoneId, hand: ZoneId) -> (drew:
        bool)
        requires
            (player.0 as int) < old(state)@.public.hand_sizes.len(),
            (player.0 as int) < old(state)@.hands.len(),
        ensures
            drew == can_draw(old(state)@, player, deck),
            final(state)@ == draw_step(old(state)@, player, deck, hand),
    {
        if *state.public.hand_sizes.get(player) == u32::MAX {
            return false;
        }
        match state.zones.pop_top(deck) {
            Some(card) => {
                state.zones.add_to_zone(card, hand, None);
                let drawn_card = match state.get_card_mut(card) {
                    Some(instance) => {
                        instance.zone = hand;
                        Some(instance.card_id)
                    },
                    None => None,
                };
                match drawn_card {
                    Some(card_id) => {
                        state.add_to_hand(player, card_id);
                    },
                    None => {},
                }
                true
            },
            None => false,
        }
    }

    /// Draws up to `count` cards for a player from `deck` to `hand`, and
    /// fails where there was none to draw.
    pub fn draw_cards(
        state: &mut GameState,
        player: PlayerId,
        deck: ZoneId,
        hand: ZoneId,
        count: usize,
    ) -> (result: ResolveResult)
        requires
            old(state)@.wf(),
            (player.0 as int) < old(state)@.public.player_count,
        ensures
            draws(old(state)@, player, deck, hand, count, None, None, final(state)@, result),
            final(state)@.wf(),
            old(state)@.cards_placed() ==> final(state)@.cards_placed(),
            old(state)@.hands_consistent() ==> final(state)@.hands_consistent(),
    {
        let mut done: usize = 0;
        let mut stopped = false;
        while done < count && !stopped
            invariant
                done <= count,
                state@.wf(),
                (player.0 as int) < state@.public.player_count,
                state@.public.player_count == old(state)@.public.player_count,
                old(state)@.cards_placed() ==> state@.cards_placed(),
                old(state)@.hands_consistent() ==> state@.hands_consistent(),
                state@ == drawn(old(state)@, player, deck, hand, done as nat),
                stopped ==> !can_draw(state@, player, deck),
                done > 0 ==> can_draw(old(state)@, player, deck),
                stopped && done == 0 ==> !can_draw(old(state)@, player, deck),
            decreases count - done + (if stopped { 0int } else { 1int }),
        {
            proof {
                lemma_draw_step_keeps(state@, player, deck, hand);
            }
            let ghost before = state@;
            if Self::draw_one(state, player, deck, hand) {
                proof {
                    if done == 0 {
                        assert(before == old(state)@);
                    }
                }
                done = done + 1;
            } else {
                stopped = true;
            }
        }
        proof {
            if stopped {
                lemma_drawn_stops(old(state)@, player, deck, hand, done as nat, count as nat);
            }
        }
        if done > 0 {
            ResolveResult::Success
        } else {
            ResolveResult::Failed("Deck was empty".to_owned())
        }
    }

    /// Resolves every entry of a batch, in order: an entry with targets on
    /// each target in order, an entry without as an effect on a zone or on
    /// the turn. Gives one result for each resolution.
    pub fn resolve_batch<C: ResolverContext>(
        state: &mut GameState,
        batch: &EffectBatch,
        context: &C,
    ) -> (results: Vec<ResolveResult>)
        requires
            old(state)@.wf(),
        ensures
            entries_run(context, old(state)@, batch@, batch@.len() as int, final(state)@, results@),
            final(state)@.wf(),
            old(state)@.cards_placed() ==> final(state)@.cards_placed(),
            old(state)@.hands_consistent() ==> final(state)@.hands_consistent(),
    {
        let mut results: Vec<ResolveResult> = Vec::new();
        let mut entry_index: usize = 0;
        while entry_index < batch.entries.len()
            invariant
                entry_index <= batch@.len(),
                state@.wf(),
                old(state)@.cards_placed() ==> state@.cards_placed(),
                old(state)@.hands_consistent() ==> state@.hands_consistent(),
                entries_run(context, old(state)@, batch@, entry_index as int, state@, results@),
            decreases batch@.len() - entry_index,
        {
            let entry = &batch.entries[entry_index];
            let ghost entry_start = state@;
            let ghost earlier = results@;
            let mut target_index: usize = 0;
            let mut added: Vec<ResolveResult> = Vec::new();
            while target_index < entry.targets.len()
                invariant
                    target_index <= entry.targets@.len(),
                    state@.wf(),
                    old(state)@.cards_placed() ==> state@.cards_placed(),
                    old(state)@.hands_consistent() ==> state@.hands_consistent(),
                    targets_run(context, entry_start,
                        entry.effect@,
                        entry.targets@,
                        target_index as int,
                        state@,
                        added@,
                    ),
                decreases entry.targets@.len() - target_index,
            {
                let ghost before = state@;
                let ghost so_far = added@;
                let result = Self::resolve_single(
                    state,
                    &entry.effect,
                    entry.targets[target_index],
                    context,
                );
                added.push(result);
                target_index = target_index + 1;
                proof {
                    lemma_targets_step(context, entry_start,
                        entry.effect@,
                        entry.targets@,
                        target_index - 1,
                        before,
                        so_far,
                        state@,
                        result,
                    );
                }
            }
            if entry.targets.len() == 0 {
                let result = Self::resolve_zone_effect(state, &entry.effect, context);
                added.push(result);
                proof {
                    assert(added@ =~= seq![result]);
                    assert(zone_resolves(entry_start, entry.effect@, state@, result));
                    assert(went(state@, result));
                    assert(entry_resolves(context, entry_start, *entry, state@, added@));
                }
            }
            let ghost added_results = added@;
            results.append(&mut added);
            entry_index = entry_index + 1;
            proof {
                assert(entry_resolves(context, entry_start, *entry, state@, added_results));
                lemma_entries_step(context, old(state)@,
                    batch@,
                    entry_index - 1,
                    entry_start,
                    earlier,
                    state@,
                    added_results,
                );
                assert(results@ =~= earlier + added_results);
            }
        }
        results
    }

    /// Resolves one effect on one target.
    ///
    /// A target is a player for the effects on players and a card for the
    /// effects on cards; an effect on the wrong kind of target fails. A
    /// batch stops at its first failure and gives that failure. A
    /// conditional effect is skipped where the game says that its condition
    /// does not hold.
    #[verifier::loop_isolation(false)]
    pub fn resolve_single<C: ResolverContext>(
        state: &mut GameState,
        effect: &Effect,
        target: EntityId,
        context: &C,
    ) -> (result: ResolveResult)
        requires
            old(state)@.wf(),
        ensures
            resolves(context, old(state)@, effect@, target, final(state)@, result),
            final(state)@.wf(),
            old(state)@.cards_placed() ==> final(state)@.cards_placed(),
            old(state)@.hands_consistent() ==> final(state)@.hands_consistent(),
        decreases *effect,
    {
        broadcast use vstd::std_specs::vec::axiom_vec_index_decreases;

        proof {
            reveal_with_fuel(resolves, 2);
        }
        let player_count = state.player_count();
        match effect {
            Effect::ModifyPlayerState { key, delta } => {
                match target.as_player_index(player_count) {
                    Some(index) => {
                        let player = PlayerId::new(index);
                        state.public.modify_player_state(player, key.as_str(), *delta);
                        ResolveResult::Success
                    },
                    None => ResolveResult::Failed("Target is not a player".to_owned()),
                }
            },
            Effect::SetPlayerState { key, value } => {
                match target.as_player_index(player_count) {
                    Some(index) => {
                        let player = PlayerId::new(index);
                        state.public.set_player_state(player, key.as_str(), *value);
                        ResolveResult::Success
                    },
                    None => ResolveResult::Failed("Target is not a player".to_owned()),
                }
            },
            Effect::MoveCard { destination, position } => {
                if target.is_player(player_count) {
                    ResolveResult::Failed("Target is a player, not a card".to_owned())
                } else if state.get_card(target).is_none() {
                    ResolveResult::Failed("Card not found".to_owned())
                } else {
                    proof {
                        lemma_moved_card_keeps(state@, target, *destination, *position);
                    }
                    Self::move_card(state, target, *destination, *position);
                    ResolveResult::Success
                }
            },
            Effect::DrawCards { count, from_zone, to_zone } => {
                match target.as_player_index(player_count) {
                    Some(index) => {
                        let player = PlayerId::new(index);
                        let deck = match from_zone {
                            Some(zone) => *zone,
                            None => context.get_deck_zone(player),
                        };
                        let hand = match to_zone {
                            Some(zone) => *zone,
                            None => context.get_hand_zone(player),
                        };
                        let result = Self::draw_cards(state, player, deck, hand, *count);
                        proof {
                            assert(draws(
                                old(state)@,
                                player,
                                deck,
                                hand,
                                *count,
                                *from_zone,
                                *to_zone,
                                state@,
                                result,
                            ));
                        }
                        proof {
                            lemma_draw_resolves(context, old(state)@,
                                *count,
                                *from_zone,
                                *to_zone,
                                target,
                                player,
                                deck,
                                hand,
                                state@,
                                result,
                            );
                        }
                        result
                    },
                    None => ResolveResult::Failed("Target is not a player".to_owned()),
                }
            },
            Effect::ModifyCardState { key, delta } => {
                if !target.is_player(player_count) {
                    match state.get_card_mut(target) {
                        Some(card) => {
                            card.modify_state(key.as_str(), *delta);
                            ResolveResult::Success
                        },
                        None => ResolveResult::Failed("Card not found".to_owned()),
                    }
                } else {
                    ResolveResult::Failed("Target is a player, not a card".to_owned())
                }
            },
            Effect::SetCardState { key, value } => {
                if !target.is_player(player_count) {
                    match state.get_card_mut(target) {
                        Some(card) => {
                            card.set_state(key.as_str(), *value);
                            ResolveResult::Success
                        },
                        None => ResolveResult::Failed("Card not found".to_owned()),
                    }
                } else {
                    ResolveResult::Failed("Target is a player, not a card".to_owned())
                }
            },
            Effect::ModifyTurnState { key, delta } => {
                let current = state.public.get_turn_state(key.as_str(), 0);
                state.public.set_turn_state(key.as_str(), current.wrapping_add(*delta));
                ResolveResult::Success
            },
            Effect::SetTurnState { key, value } => {
                state.public.set_turn_state(key.as_str(), *value);
                ResolveResult::Success
            },
            Effect::ShuffleZone { zone } => {
                state.zones.shuffle_zone(*zone, &mut state.rng);
                ResolveResult::Success
            },
            Effect::Batch(effects) => {
                proof {
                    lemma_batch_view(*effects);
                }
                let ghost views = effect_views(effects@);
                let mut next: usize = 0;
                while next < effects.len()
                    invariant
                        next <= effects@.len(),
                        state@.wf(),
                        old(state)@.cards_placed() ==> state@.cards_placed(),
                        old(state)@.hands_consistent() ==> state@.hands_consistent(),
                        runs(context, old(state)@, views, next as int, target, state@),
                    decreases effects@.len() - next,
                {
                    let ghost before = state@;
                    let result = Self::resolve_single(state, &effects[next], target, context);
                    proof {
                        assert(views[next as int] == effects@[next as int]@);
                        assert(resolves(context, before, views[next as int], target, state@, result));
                    }
                    match result {
                        ResolveResult::Failed(reason) => {
                            let failure = ResolveResult::Failed(reason);
                            proof {
                                lemma_batch_resolves(context, old(state)@,
                                    views,
                                    next as int,
                                    target,
                                    before,
                                    state@,
                                    failure,
                                );
                            }
                            return failure;
                        },
                        ResolveResult::Success => {
                            proof {
                                lemma_runs_step(context, old(state)@,
                                    views,
                                    next as int,
                                    target,
                                    before,
                                    state@,
                                    ResolveResult::Success,
                                );
                            }
                        },
                        ResolveResult::Skipped => {
                            proof {
                                lemma_runs_step(context, old(state)@,
                                    views,
                                    next as int,
                                    target,
                                    before,
                                    state@,
                                    ResolveResult::Skipped,
                                );
                            }
                        },
                    }
                    next = next + 1;
                }
                proof {
                    lemma_batch_resolves(context, old(state)@,
                        views,
                        next as int,
                        target,
                        state@,
                        state@,
                        ResolveResult::Success,
                    );
                }
                ResolveResult::Success
            },
            Effect::Conditional { condition_key, effect: inner } => {
                let holds = context.eval_condition(condition_key.as_str(), state);
                let result = if holds {
                    Self::resolve_single(state, inner, target, context)
                } else {
                    ResolveResult::Skipped
                };
                proof {
                    reveal_with_fuel(resolves, 2);
                    assert(answers(context, condition_key@, old(state)@, holds));
                    if holds {
                        assert(resolves(context, old(state)@, inner@, target, state@, result));
                    }
                    assert(effect@ == (EffectView::Conditional {
                        condition_key: condition_key@,
                        effect: Box::new(inner@),
                    }));
                    lemma_conditional_resolves(
                        context,
                        old(state)@,
                        condition_key@,
                        inner@,
                        target,
                        holds,
                        state@,
                        result,
                    );
                }
                result
            },
        }
    }

    /// Resolves an effect that needs no target: a shuffle, or a change of
    /// the turn's values. Every other effect fails.
    pub fn resolve_zone_effect<C: ResolverContext>(
        state: &mut GameState,
        effect: &Effect,
        context: &C,
    ) -> (result: ResolveResult)
        requires
            old(state)@.wf(),
        ensures
            zone_resolves(old(state)@, effect@, final(state)@, result),
            final(state)@.wf(),
            old(state)@.cards_placed() ==> final(state)@.cards_placed(),
            old(state)@.hands_consistent() ==> final(state)@.hands_consistent(),
    {
        match effect {
            Effect::ShuffleZone { zone } => {
                state.zones.shuffle_zone(*zone, &mut state.rng);
                ResolveResult::Success
            },
            Effect::ModifyTurnState { key, delta } => {
                let current = state.public.get_turn_state(key.as_str(), 0);
                state.public.set_turn_state(key.as_str(), current.wrapping_add(*delta));
                ResolveResult::Success
            },
            Effect::SetTurnState { key, value } => {
                state.public.set_turn_state(key.as_str(), *value);
                ResolveResult::Success
            },
            _ => ResolveResult::Failed("Effect requires a target".to_owned()),
        }
    }
}

} // verus!
