//! The card registry: every card definition of a game, by its identifier.

use super::definition::{CardDefinition, CardId, CardTypeId};
use crate::maps::{
    id_map_get, id_map_get_mut, id_map_insert, id_map_keys, id_map_len, id_map_new, IdMap,
};
use vstd::prelude::*;

verus! {

/// Every card definition of a game, by its identifier.
#[derive(Clone, Debug)]
pub struct CardRegistry {
    cards: IdMap<CardDefinition>,
    next_id: u32,
}

impl View for CardRegistry {
    type V = Map<u32, CardDefinition>;

    closed spec fn view(&self) -> Map<u32, CardDefinition> {
        self.cards@
    }
}

impl Default for CardRegistry {
    fn default() -> (registry: Self)
        ensures
            registry@ == Map::<u32, CardDefinition>::empty(),
            registry.next_auto_id() == 0,
            registry.wf(),
    {
        CardRegistry::new()
    }
}

impl CardRegistry {
    /// The identifier that `register_auto` hands out next.
    pub closed spec fn next_auto_id(&self) -> u32 {
        self.next_id
    }

    /// Every definition is stored under its own identifier, and there are
    /// finitely many.
    pub open spec fn wf(&self) -> bool {
        &&& self@.dom().finite()
        &&& forall|id: u32| #[trigger] self@.contains_key(id) ==> self@[id].id.0 == id
    }

    /// Whether a definition is stored under `id`.
    pub open spec fn has(&self, id: CardId) -> bool {
        self@.contains_key(id.0)
    }

    /// A registry without cards.
    pub fn new() -> (registry: Self)
        ensures
            registry@ == Map::<u32, CardDefinition>::empty(),
            registry.next_auto_id() == 0,
            registry.wf(),
    {
        CardRegistry { cards: id_map_new(), next_id: 0 }
    }

    /// Stores a definition under its identifier, which must be free.
    pub fn register(&mut self, card: CardDefinition)
        requires
            !old(self).has(card.id),
        ensures
            final(self)@ == old(self)@.insert(card.id.0, card),
            final(self).next_auto_id() == old(self).next_auto_id(),
            old(self).wf() ==> final(self).wf(),
    {
        let id = card.id.0;
        let _ = id_map_insert(&mut self.cards, id, card);
    }

    /// Stores a definition under its identifier, which must be free, and
    /// hands it back to be changed in place.
    pub fn register_mut(&mut self, card: CardDefinition) -> (stored: &mut CardDefinition)
        requires
            !old(self).has(card.id),
        ensures
            *stored == card,
            final(self)@ == old(self)@.insert(card.id.0, *final(stored)),
            final(self).next_auto_id() == old(self).next_auto_id(),
    {
        let id = card.id.0;
        let _ = id_map_insert(&mut self.cards, id, card);
        match id_map_get_mut(&mut self.cards, id) {
            Some(stored) => stored,
            None => vstd::pervasive::unreached(),
        }
    }

    /// Makes a definition under the next identifier of the registry's own
    /// counter, which must be free, and gives that identifier.
    pub fn register_auto(&mut self, name: &str, card_type: CardTypeId) -> (id: CardId)
        requires
            old(self).next_auto_id() < u32::MAX,
            !old(self).has(CardId(old(self).next_auto_id())),
        ensures
            id.0 == old(self).next_auto_id(),
            final(self).next_auto_id() == old(self).next_auto_id() + 1,
            final(self)@.dom() == old(self)@.dom().insert(id.0),
            forall|other: u32| other != id.0 && old(self)@.contains_key(other) ==> final(self)@[other] == old(self)@[other],
            final(self)@[id.0].id == id,
            final(self)@[id.0].name@ == name@,
            final(self)@[id.0].card_type == card_type,
            final(self)@[id.0].attrs() == Map::<Seq<char>, super::attributes::AttributeValue>::empty(),
            old(self).wf() ==> final(self).wf(),
    {
        let id = CardId::new(self.next_id);
        self.next_id = self.next_id + 1;
        let card = CardDefinition::new(id, name, card_type);
        self.register(card);
        id
    }

    /// The definition stored under `id`, if any.
    pub fn get(&self, id: CardId) -> (card: Option<&CardDefinition>)
        ensures
            card == (if self.has(id) {
                Some(&self@[id.0])
            } else {
                None
            }),
    {
        id_map_get(&self.cards, id.0)
    }

    /// The definition stored under `id`, which must be there.
    pub fn get_unchecked(&self, id: CardId) -> (card: &CardDefinition)
        requires
            self.has(id),
        ensures
            *card == self@[id.0],
    {
        match id_map_get(&self.cards, id.0) {
            Some(card) => card,
            None => vstd::pervasive::unreached(),
        }
    }

    /// Whether a definition is stored under `id`.
    pub fn contains(&self, id: CardId) -> (found: bool)
        ensures
            found == self.has(id),
    {
        id_map_get(&self.cards, id.0).is_some()
    }

    /// The number of definitions.
    pub fn len(&self) -> (count: usize)
        ensures
            count == self@.len(),
    {
        id_map_len(&self.cards)
    }

    /// Whether there is no definition.
    pub fn is_empty(&self) -> (empty: bool)
        ensures
            empty == (self@.len() == 0),
    {
        id_map_len(&self.cards) == 0
    }

    /// Every definition, each once, in no particular order.
    pub fn iter(&self) -> (cards: Vec<&CardDefinition>)
        requires
            self.wf(),
        ensures
            listed_once(self@, cards@, |card: CardDefinition| true),
    {
        let keys = id_map_keys(&self.cards);
        let ghost wanted = |card: CardDefinition| true;
        let mut cards: Vec<&CardDefinition> = Vec::new();
        let mut next: usize = 0;
        while next < keys.len()
            invariant
                next <= keys@.len(),
                self.wf(),
                keys@.no_duplicates(),
                wanted == (|card: CardDefinition| true),
                forall|key: u32| #[trigger] keys@.contains(key) <==> self.cards@.contains_key(key),
                listed_prefix(self@, cards@, wanted, keys@, next as int),
            decreases keys@.len() - next,
        {
            let key = keys[next];
            assert(keys@.contains(key));
            match id_map_get(&self.cards, key) {
                Some(card) => {
                    proof {
                        lemma_listed_push(self@, cards@, card, wanted, keys@, next as int);
                    }
                    cards.push(card);
                },
                None => {},
            }
            next = next + 1;
        }
        proof {
            lemma_listed_all(self@, cards@, wanted, keys@);
        }
        cards
    }

    /// The definitions of one kind, each once, in no particular order.
    pub fn find_by_type(&self, card_type: CardTypeId) -> (cards: Vec<&CardDefinition>)
        requires
            self.wf(),
        ensures
            listed_once(self@, cards@, |card: CardDefinition| card.card_type == card_type),
    {
        let keys = id_map_keys(&self.cards);
        let ghost wanted = |card: CardDefinition| card.card_type == card_type;
        let mut cards: Vec<&CardDefinition> = Vec::new();
        let mut next: usize = 0;
        while next < keys.len()
            invariant
                next <= keys@.len(),
                self.wf(),
                keys@.no_duplicates(),
                wanted == (|card: CardDefinition| card.card_type == card_type),
                forall|key: u32| #[trigger] keys@.contains(key) <==> self.cards@.contains_key(key),
                listed_prefix(self@, cards@, wanted, keys@, next as int),
            decreases keys@.len() - next,
        {
            let key = keys[next];
            assert(keys@.contains(key));
            match id_map_get(&self.cards, key) {
                Some(card) => {
                    if card.card_type == card_type {
                        proof {
                            lemma_listed_push(self@, cards@, card, wanted, keys@, next as int);
                        }
                        cards.push(card);
                    } else {
                        proof {
                            lemma_listed_skip(self@, cards@, wanted, keys@, next as int);
                        }
                    }
                },
                None => {},
            }
            next = next + 1;
        }
        proof {
            lemma_listed_all(self@, cards@, wanted, keys@);
        }
        cards
    }

    /// The definitions that `predicate` accepts, each once, in no
    /// particular order.
    pub fn find<F: Fn(&CardDefinition) -> bool>(&self, predicate: F) -> (cards: Vec<
        &CardDefinition,
    >)
        requires
            self.wf(),
            forall|card: &CardDefinition| #[trigger] call_requires(predicate, (card,)),
        ensures
            forall|i: int|
                0 <= i < cards@.len() ==> self.has((#[trigger] cards@[i]).id) && *cards@[i]
                    == self@[cards@[i].id.0] && call_ensures(predicate, (cards@[i],), true),
            forall|i: int, j: int|
                0 <= i < j < cards@.len() ==> (#[trigger] cards@[i]).id != (
                #[trigger] cards@[j]).id,
            forall|id: u32|
                #[trigger] self@.contains_key(id) && !call_ensures(predicate, (&self@[id],), false)
                    ==> exists|i: int| 0 <= i < cards@.len() && (#[trigger] cards@[i]).id.0 == id,
    {
        let keys = id_map_keys(&self.cards);
        let mut cards: Vec<&CardDefinition> = Vec::new();
        let mut next: usize = 0;
        while next < keys.len()
            invariant
                next <= keys@.len(),
                self.wf(),
                keys@.no_duplicates(),
                forall|card: &CardDefinition| #[trigger] call_requires(predicate, (card,)),
                forall|key: u32| #[trigger] keys@.contains(key) <==> self.cards@.contains_key(key),
                forall|i: int|
                    0 <= i < cards@.len() ==> self.cards@.contains_key((#[trigger] cards@[i]).id.0)
                        && *cards@[i] == self.cards@[cards@[i].id.0] && call_ensures(
                        predicate,
                        (cards@[i],),
                        true,
                    ) && exists|k: int| 0 <= k < next && #[trigger] keys@[k] == cards@[i].id.0,
                forall|i: int, j: int|
                    0 <= i < j < cards@.len() ==> (#[trigger] cards@[i]).id != (
                    #[trigger] cards@[j]).id,
                forall|k: int|
                    0 <= k < next && !call_ensures(predicate, (&self.cards@[#[trigger] keys@[k]],), false)
                        ==> exists|i: int|
                        0 <= i < cards@.len() && (#[trigger] cards@[i]).id.0 == keys@[k],
            decreases keys@.len() - next,
        {
            let key = keys[next];
            assert(keys@.contains(key));
            match id_map_get(&self.cards, key) {
                Some(card) => {
                    let ghost before = cards@;
                    if predicate(card) {
                        cards.push(card);
                        assert(cards@[before.len() as int].id.0 == key);
                        assert forall|k: int|
                            0 <= k < next + 1 && !call_ensures(
                                predicate,
                                (&self.cards@[#[trigger] keys@[k]],),
                                false,
                            ) implies exists|i: int|
                            0 <= i < cards@.len() && (#[trigger] cards@[i]).id.0 == keys@[k] by {
                            if k < next {
                                let i = choose|i: int|
                                    0 <= i < before.len() && (#[trigger] before[i]).id.0
                                        == keys@[k];
                                assert(cards@[i].id.0 == keys@[k]);
                            } else {
                                assert(cards@[before.len() as int].id.0 == keys@[k]);
                            }
                        }
                    }
                },
                None => {},
            }
            next = next + 1;
        }
        proof {
            assert forall|id: u32|
                #[trigger] self@.contains_key(id) && !call_ensures(predicate, (&self@[id],), false)
                implies exists|i: int| 0 <= i < cards@.len() && (#[trigger] cards@[i]).id.0 == id by {
                assert(keys@.contains(id));
                let k = choose|k: int| 0 <= k < keys@.len() && keys@[k] == id;
                assert(keys@[k] == id);
            }
        }
        cards
    }
}

/// `cards` holds exactly the wanted definitions of `registry`, each once.
pub open spec fn listed_once(
    registry: Map<u32, CardDefinition>,
    cards: Seq<&CardDefinition>,
    wanted: spec_fn(CardDefinition) -> bool,
) -> bool {
    &&& forall|i: int|
        0 <= i < cards.len() ==> registry.contains_key((#[trigger] cards[i]).id.0) && *cards[i]
            == registry[cards[i].id.0] && wanted(*cards[i])
    &&& forall|i: int, j: int|
        0 <= i < j < cards.len() ==> (#[trigger] cards[i]).id != (#[trigger] cards[j]).id
    &&& forall|id: u32|
        #[trigger] registry.contains_key(id) && wanted(registry[id]) ==> exists|i: int|
            0 <= i < cards.len() && (#[trigger] cards[i]).id.0 == id
}

/// `cards` holds exactly the wanted definitions stored under the first
/// `count` of `keys`, in the order of the keys.
pub open spec fn listed_prefix(
    registry: Map<u32, CardDefinition>,
    cards: Seq<&CardDefinition>,
    wanted: spec_fn(CardDefinition) -> bool,
    keys: Seq<u32>,
    count: int,
) -> bool {
    &&& forall|i: int|
        0 <= i < cards.len() ==> registry.contains_key((#[trigger] cards[i]).id.0) && *cards[i]
            == registry[cards[i].id.0] && wanted(*cards[i]) && exists|k: int|
            0 <= k < count && #[trigger] keys[k] == cards[i].id.0
    &&& forall|i: int, j: int|
        0 <= i < j < cards.len() ==> (#[trigger] cards[i]).id != (#[trigger] cards[j]).id
    &&& forall|k: int|
        0 <= k < count && wanted(registry[#[trigger] keys[k]]) ==> exists|i: int|
            0 <= i < cards.len() && (#[trigger] cards[i]).id.0 == keys[k]
}

/// A wanted definition found under the next key extends the list.
pub proof fn lemma_listed_push(
    registry: Map<u32, CardDefinition>,
    cards: Seq<&CardDefinition>,
    card: &CardDefinition,
    wanted: spec_fn(CardDefinition) -> bool,
    keys: Seq<u32>,
    next: int,
)
    requires
        listed_prefix(registry, cards, wanted, keys, next),
        0 <= next < keys.len(),
        keys.no_duplicates(),
        registry.contains_key(keys[next]),
        *card == registry[keys[next]],
        card.id.0 == keys[next],
        wanted(*card),
    ensures
        listed_prefix(registry, cards.push(card), wanted, keys, next + 1),
{
    let longer = cards.push(card);
    assert forall|i: int| 0 <= i < longer.len() implies registry.contains_key(
        (#[trigger] longer[i]).id.0,
    ) && *longer[i] == registry[longer[i].id.0] && wanted(*longer[i]) && exists|k: int|
        0 <= k < next + 1 && #[trigger] keys[k] == longer[i].id.0 by {
        if i < cards.len() {
            assert(longer[i] == cards[i]);
            let k = choose|k: int| 0 <= k < next && #[trigger] keys[k] == cards[i].id.0;
            assert(keys[k] == longer[i].id.0);
        } else {
            assert(keys[next] == longer[i].id.0);
        }
    }
    assert forall|i: int, j: int| 0 <= i < j < longer.len() implies (#[trigger] longer[i]).id != (
    #[trigger] longer[j]).id by {
        if j < cards.len() {
            assert(longer[i] == cards[i] && longer[j] == cards[j]);
        } else {
            assert(longer[i] == cards[i]);
            let k = choose|k: int| 0 <= k < next && #[trigger] keys[k] == cards[i].id.0;
            assert(keys[k] != keys[next]);
        }
    }
    assert forall|k: int| 0 <= k < next + 1 && wanted(registry[#[trigger] keys[k]]) implies exists|
        i: int,
    | 0 <= i < longer.len() && (#[trigger] longer[i]).id.0 == keys[k] by {
        if k < next {
            let i = choose|i: int| 0 <= i < cards.len() && (#[trigger] cards[i]).id.0 == keys[k];
            assert(longer[i].id.0 == keys[k]);
        } else {
            assert(longer[cards.len() as int].id.0 == keys[k]);
        }
    }
}

/// A definition under the next key that is not wanted leaves the list as
/// it is.
pub proof fn lemma_listed_skip(
    registry: Map<u32, CardDefinition>,
    cards: Seq<&CardDefinition>,
    wanted: spec_fn(CardDefinition) -> bool,
    keys: Seq<u32>,
    next: int,
)
    requires
        listed_prefix(registry, cards, wanted, keys, next),
        0 <= next < keys.len(),
        !wanted(registry[keys[next]]),
    ensures
        listed_prefix(registry, cards, wanted, keys, next + 1),
{
    assert forall|i: int| 0 <= i < cards.len() implies exists|k: int|
        0 <= k < next + 1 && #[trigger] keys[k] == (#[trigger] cards[i]).id.0 by {
        let k = choose|k: int| 0 <= k < next && #[trigger] keys[k] == cards[i].id.0;
        assert(keys[k] == cards[i].id.0);
    }
}

/// Once every key has been looked at, the list is complete.
pub proof fn lemma_listed_all(
    registry: Map<u32, CardDefinition>,
    cards: Seq<&CardDefinition>,
    wanted: spec_fn(CardDefinition) -> bool,
    keys: Seq<u32>,
)
    requires
        listed_prefix(registry, cards, wanted, keys, keys.len() as int),
        forall|key: u32| #[trigger] keys.contains(key) <==> registry.contains_key(key),
    ensures
        listed_once(registry, cards, wanted),
{
    assert forall|id: u32| #[trigger] registry.contains_key(id) && wanted(registry[id]) implies exists|
        i: int,
    | 0 <= i < cards.len() && (#[trigger] cards[i]).id.0 == id by {
        assert(keys.contains(id));
        let k = choose|k: int| 0 <= k < keys.len() && keys[k] == id;
        assert(wanted(registry[keys[k]]));
    }
}

} // verus!
