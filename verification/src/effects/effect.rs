//! Effects and batches of effects.
//!
//! An effect is a value; it says what to change and leaves open on whom.
//! A batch pairs effects with their targets, in the order in which they
//! are to be resolved.

use crate::base::config::ZoneId;
use crate::base::entity::EntityId;
use crate::base::player::PlayerId;
use crate::zones::manager::ZonePosition;
use vstd::prelude::*;

verus! {

/// An atomic change to the state of a game.
#[derive(Debug, PartialEq, Eq)]
pub enum Effect {
    /// Adds `delta` to a value of the target player.
    ModifyPlayerState { key: String, delta: i64 },
    /// Sets a value of the target player.
    SetPlayerState { key: String, value: i64 },
    /// Moves the target card to a zone.
    MoveCard { destination: ZoneId, position: Option<ZonePosition> },
    /// Moves up to `count` cards from the top of one zone to another, for
    /// the target player.
    DrawCards { count: usize, from_zone: Option<ZoneId>, to_zone: Option<ZoneId> },
    /// Puts the cards of a zone in a drawn order.
    ShuffleZone { zone: ZoneId },
    /// Adds `delta` to a value of the target card.
    ModifyCardState { key: String, delta: i64 },
    /// Sets a value of the target card.
    SetCardState { key: String, value: i64 },
    /// Adds `delta` to a value of the turn.
    ModifyTurnState { key: String, delta: i64 },
    /// Sets a value of the turn.
    SetTurnState { key: String, value: i64 },
    /// Several effects on one target, in order, up to the first that fails.
    Batch(Vec<Effect>),
    /// An effect that applies only where the game says the condition
    /// holds.
    Conditional { condition_key: String, effect: Box<Effect> },
}

/// An effect as plain values.
pub enum EffectView {
    ModifyPlayerState { key: Seq<char>, delta: i64 },
    SetPlayerState { key: Seq<char>, value: i64 },
    MoveCard { destination: ZoneId, position: Option<ZonePosition> },
    DrawCards { count: usize, from_zone: Option<ZoneId>, to_zone: Option<ZoneId> },
    ShuffleZone { zone: ZoneId },
    ModifyCardState { key: Seq<char>, delta: i64 },
    SetCardState { key: Seq<char>, value: i64 },
    ModifyTurnState { key: Seq<char>, delta: i64 },
    SetTurnState { key: Seq<char>, value: i64 },
    Batch(Seq<EffectView>),
    Conditional { condition_key: Seq<char>, effect: Box<EffectView> },
}

/// An effect as plain values.
pub open spec fn effect_view(effect: Effect) -> EffectView
    decreases effect,
{
    match effect {
            Effect::ModifyPlayerState { key, delta } => EffectView::ModifyPlayerState {
                key: key@,
                delta,
            },
            Effect::SetPlayerState { key, value } => EffectView::SetPlayerState {
                key: key@,
                value,
            },
            Effect::MoveCard { destination, position } => EffectView::MoveCard {
                destination,
                position,
            },
            Effect::DrawCards { count, from_zone, to_zone } => EffectView::DrawCards {
                count,
                from_zone,
                to_zone,
            },
            Effect::ShuffleZone { zone } => EffectView::ShuffleZone { zone },
            Effect::ModifyCardState { key, delta } => EffectView::ModifyCardState {
                key: key@,
                delta,
            },
            Effect::SetCardState { key, value } => EffectView::SetCardState {
                key: key@,
                value,
            },
            Effect::ModifyTurnState { key, delta } => EffectView::ModifyTurnState {
                key: key@,
                delta,
            },
            Effect::SetTurnState { key, value } => EffectView::SetTurnState {
                key: key@,
                value,
            },
            Effect::Batch(effects) => EffectView::Batch(
                Seq::new(
                    effects.len() as nat,
                    |i: int|
                        if 0 <= i < effects.len() {
                            effect_view(effects@[i])
                        } else {
                            arbitrary()
                        },
                ),
            ),
            Effect::Conditional { condition_key, effect } => EffectView::Conditional {
                condition_key: condition_key@,
                effect: Box::new(effect_view(*effect)),
            },
        }
}

impl View for Effect {
    type V = EffectView;

    open spec fn view(&self) -> EffectView {
        effect_view(*self)
    }
}

/// The given effects as plain values.
pub open spec fn effect_views(effects: Seq<Effect>) -> Seq<EffectView> {
    Seq::new(effects.len(), |i: int| effects[i]@)
}

/// A batch effect is its sub-effects, as plain values.
pub proof fn lemma_batch_view(effects: Vec<Effect>)
    ensures
        Effect::Batch(effects)@ == EffectView::Batch(effect_views(effects@)),
{
    reveal_with_fuel(effect_view, 2);
    assert(Effect::Batch(effects)@->Batch_0 =~= effect_views(effects@));
}

impl Effect {
    /// Takes `amount` from the target player's "life".
    pub fn damage(amount: i64) -> (effect: Self)
        requires
            amount > i64::MIN,
        ensures
            effect@ == (EffectView::ModifyPlayerState { key: "life"@, delta: (-amount) as i64 }),
    {
        Effect::ModifyPlayerState { key: "life".to_owned(), delta: -amount }
    }

    /// Adds `amount` to the target player's "life".
    pub fn heal(amount: i64) -> (effect: Self)
        ensures
            effect@ == (EffectView::ModifyPlayerState { key: "life"@, delta: amount }),
    {
        Effect::ModifyPlayerState { key: "life".to_owned(), delta: amount }
    }

    /// Draws `count` cards from the player's deck to the player's hand.
    pub fn draw(count: usize) -> (effect: Self)
        ensures
            effect == (Effect::DrawCards { count, from_zone: None, to_zone: None }),
    {
        Effect::DrawCards { count, from_zone: None, to_zone: None }
    }

    /// Moves the target card to a zone, on top where it is ordered.
    pub fn move_to(zone: ZoneId) -> (effect: Self)
        ensures
            effect == (Effect::MoveCard { destination: zone, position: None }),
    {
        Effect::MoveCard { destination: zone, position: None }
    }

    /// Moves the target card to the top of a zone.
    pub fn move_to_top(zone: ZoneId) -> (effect: Self)
        ensures
            effect == (Effect::MoveCard {
                destination: zone,
                position: Some(ZonePosition::Top),
            }),
    {
        Effect::MoveCard { destination: zone, position: Some(ZonePosition::Top) }
    }

    /// Moves the target card to the bottom of a zone.
    pub fn move_to_bottom(zone: ZoneId) -> (effect: Self)
        ensures
            effect == (Effect::MoveCard {
                destination: zone,
                position: Some(ZonePosition::Bottom),
            }),
    {
        Effect::MoveCard { destination: zone, position: Some(ZonePosition::Bottom) }
    }

    /// Adds `delta` to a value of the target player.
    pub fn modify_player(key: &str, delta: i64) -> (effect: Self)
        ensures
            effect@ == (EffectView::ModifyPlayerState { key: key@, delta }),
    {
        Effect::ModifyPlayerState { key: key.to_owned(), delta }
    }

    /// Sets a value of the target player.
    pub fn set_player(key: &str, value: i64) -> (effect: Self)
        ensures
            effect@ == (EffectView::SetPlayerState { key: key@, value }),
    {
        Effect::SetPlayerState { key: key.to_owned(), value }
    }

    /// Adds `delta` to a value of the target card.
    pub fn modify_card(key: &str, delta: i64) -> (effect: Self)
        ensures
            effect@ == (EffectView::ModifyCardState { key: key@, delta }),
    {
        Effect::ModifyCardState { key: key.to_owned(), delta }
    }

    /// Sets a value of the target card.
    pub fn set_card(key: &str, value: i64) -> (effect: Self)
        ensures
            effect@ == (EffectView::SetCardState { key: key@, value }),
    {
        Effect::SetCardState { key: key.to_owned(), value }
    }

    /// The given effects as one.
    pub fn batch(effects: Vec<Effect>) -> (effect: Self)
        ensures
            effect == Effect::Batch(effects),
            effect@ == EffectView::Batch(effect_views(effects@)),
    {
        proof {
            lemma_batch_view(effects);
        }
        Effect::Batch(effects)
    }
}

impl Clone for Effect {
    #[verifier::loop_isolation(false)]
    fn clone(&self) -> (copy: Self)
        ensures
            copy@ == self@,
        decreases *self,
    {
        broadcast use vstd::std_specs::vec::axiom_vec_index_decreases;

        match self {
            Effect::ModifyPlayerState { key, delta } => Effect::ModifyPlayerState {
                key: key.clone(),
                delta: *delta,
            },
            Effect::SetPlayerState { key, value } => Effect::SetPlayerState {
                key: key.clone(),
                value: *value,
            },
            Effect::MoveCard { destination, position } => Effect::MoveCard {
                destination: *destination,
                position: *position,
            },
            Effect::DrawCards { count, from_zone, to_zone } => Effect::DrawCards {
                count: *count,
                from_zone: *from_zone,
                to_zone: *to_zone,
            },
            Effect::ShuffleZone { zone } => Effect::ShuffleZone { zone: *zone },
            Effect::ModifyCardState { key, delta } => Effect::ModifyCardState {
                key: key.clone(),
                delta: *delta,
            },
            Effect::SetCardState { key, value } => Effect::SetCardState {
                key: key.clone(),
                value: *value,
            },
            Effect::ModifyTurnState { key, delta } => Effect::ModifyTurnState {
                key: key.clone(),
                delta: *delta,
            },
            Effect::SetTurnState { key, value } => Effect::SetTurnState {
                key: key.clone(),
                value: *value,
            },
            Effect::Batch(effects) => {
                let mut copies: Vec<Effect> = Vec::new();
                let mut next: usize = 0;
                while next < effects.len()
                    invariant
                        next <= effects@.len(),
                        copies@.len() == next,
                        forall|i: int| 0 <= i < next ==> (#[trigger] copies@[i])@ == effects@[i]@,
                        *self == Effect::Batch(*effects),
                    decreases effects@.len() - next,
                {
                    let copy = effects[next].clone();
                    copies.push(copy);
                    next = next + 1;
                }
                proof {
                    lemma_batch_view(copies);
                    lemma_batch_view(*effects);
                    assert(effect_views(copies@) =~= effect_views(effects@));
                }
                Effect::Batch(copies)
            },
            Effect::Conditional { condition_key, effect } => Effect::Conditional {
                condition_key: condition_key.clone(),
                effect: Box::new((**effect).clone()),
            },
        }
    }
}

/// Copies of the given effects, in the same order.
pub fn clone_effects(effects: &Vec<Effect>) -> (copies: Vec<Effect>)
    ensures
        effect_views(copies@) == effect_views(effects@),
{
    let mut copies: Vec<Effect> = Vec::new();
    let mut next: usize = 0;
    while next < effects.len()
        invariant
            next <= effects@.len(),
            copies@.len() == next,
            forall|i: int| 0 <= i < next ==> (#[trigger] copies@[i])@ == effects@[i]@,
        decreases effects@.len() - next,
    {
        copies.push(effects[next].clone());
        next = next + 1;
    }
    proof {
        assert(effect_views(copies@) =~= effect_views(effects@));
    }
    copies
}

/// One effect of a batch with its targets. An entry without targets is for
/// an effect on a zone or on the turn.
#[derive(Clone, Debug)]
pub struct EffectEntry {
    pub effect: Effect,
    pub targets: Vec<EntityId>,
}

/// Effects with their targets, in the order in which they are resolved.
#[derive(Clone, Debug)]
pub struct EffectBatch {
    pub entries: Vec<EffectEntry>,
}

impl View for EffectBatch {
    type V = Seq<EffectEntry>;

    open spec fn view(&self) -> Seq<EffectEntry> {
        self.entries@
    }
}

impl EffectBatch {
    /// A batch without entries.
    pub fn new() -> (batch: Self)
        ensures
            batch@ == Seq::<EffectEntry>::empty(),
    {
        EffectBatch { entries: Vec::new() }
    }

    /// Adds an effect on the given targets.
    pub fn add(&mut self, effect: Effect, targets: Vec<EntityId>)
        ensures
            final(self)@ == old(self)@.push(EffectEntry { effect, targets }),
    {
        self.entries.push(EffectEntry { effect, targets });
    }

    /// Adds an effect on one target.
    pub fn add_single(&mut self, effect: Effect, target: EntityId)
        ensures
            final(self)@.len() == old(self)@.len() + 1,
            final(self)@.drop_last() == old(self)@,
            final(self)@.last().effect == effect,
            final(self)@.last().targets@ == seq![target],
    {
        let mut targets: Vec<EntityId> = Vec::new();
        targets.push(target);
        self.entries.push(EffectEntry { effect, targets });
        assert(self@.drop_last() =~= old(self)@);
    }

    /// Adds an effect on a player.
    pub fn add_player(&mut self, effect: Effect, player: PlayerId)
        ensures
            final(self)@.len() == old(self)@.len() + 1,
            final(self)@.drop_last() == old(self)@,
            final(self)@.last().effect == effect,
            final(self)@.last().targets@ == seq![EntityId(player.0 as u32)],
    {
        self.add_single(effect, EntityId::player_id(player.0));
    }

    /// Adds an effect without a target.
    pub fn add_zone(&mut self, effect: Effect)
        ensures
            final(self)@.len() == old(self)@.len() + 1,
            final(self)@.drop_last() == old(self)@,
            final(self)@.last().effect == effect,
            final(self)@.last().targets@ == Seq::<EntityId>::empty(),
    {
        self.entries.push(EffectEntry { effect, targets: Vec::new() });
        assert(self@.drop_last() =~= old(self)@);
    }

    /// The entries, in order.
    pub fn iter(&self) -> (entries: &[EffectEntry])
        ensures
            entries@ == self@,
    {
        self.entries.as_slice()
    }

    /// Whether the batch has no entries.
    pub fn is_empty(&self) -> (empty: bool)
        ensures
            empty == (self@.len() == 0),
    {
        self.entries.len() == 0
    }

    /// The number of entries.
    pub fn len(&self) -> (count: usize)
        ensures
            count == self@.len(),
    {
        self.entries.len()
    }

}

impl Default for EffectBatch {
    fn default() -> (batch: Self)
        ensures
            batch@ == Seq::<EffectEntry>::empty(),
    {
        EffectBatch::new()
    }
}

} // verus!
