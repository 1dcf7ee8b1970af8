//! The zone manager.
//!
//! It knows the zone of every card. For the zones a game declares ordered
//! (a deck, a graveyard) it also keeps the order: position 0 is the bottom,
//! the last position is the top. A card is in one zone at a time, so it is
//! in at most one of those orders, and there once.

use crate::base::config::ZoneId;
use crate::base::entity::EntityId;
use crate::base::rng::{arranged, shuffled, GameRng};
use crate::maps::{
    id_map_clone, id_map_get, id_map_get_mut, id_map_insert, id_map_keys, id_map_len, id_map_new,
    id_map_remove, IdMap,
};
use vstd::prelude::*;

verus! {

/// Where in an ordered zone a card is put.
#[derive(Clone, Copy, Debug, PartialEq, Eq, Structural)]
pub enum ZonePosition {
    /// On top: the last position.
    Top,
    /// At the bottom: position 0.
    Bottom,
    /// At a position counted from the bottom; beyond the top means on top.
    Index(usize),
}

/// Every entity but one.
pub open spec fn other_than(entity: EntityId) -> spec_fn(EntityId) -> bool {
    |other: EntityId| other != entity
}

/// An order with one more entity, put where `position` says; on top where
/// it says nothing.
pub open spec fn placed(order: Seq<EntityId>, entity: EntityId, position: Option<ZonePosition>) -> Seq<
    EntityId,
> {
    match position {
        None => order.push(entity),
        Some(ZonePosition::Top) => order.push(entity),
        Some(ZonePosition::Bottom) => order.insert(0, entity),
        Some(ZonePosition::Index(index)) => if index < order.len() {
            order.insert(index as int, entity)
        } else {
            order.insert(order.len() as int, entity)
        },
    }
}

/// The zones as plain values: the zone of each entity, by its raw
/// identifier, and the order of each ordered zone, by its raw identifier.
pub struct ZoneView {
    pub locations: Map<u32, ZoneId>,
    pub orders: Map<u32, Seq<EntityId>>,
}

impl ZoneView {
    /// The zone an entity is in, if it is in one.
    pub open spec fn zone_of(self, entity: EntityId) -> Option<ZoneId> {
        if self.locations.contains_key(entity.0) {
            Some(self.locations[entity.0])
        } else {
            None
        }
    }

    /// Whether a zone keeps its cards in order.
    pub open spec fn is_ordered(self, zone: ZoneId) -> bool {
        self.orders.contains_key(zone.0 as u32)
    }

    /// The cards of an ordered zone from bottom to top; nothing for a zone
    /// that keeps no order.
    pub open spec fn order(self, zone: ZoneId) -> Seq<EntityId> {
        if self.is_ordered(zone) {
            self.orders[zone.0 as u32]
        } else {
            Seq::empty()
        }
    }

    /// The entities that are in a zone.
    pub open spec fn members(self, zone: ZoneId) -> Set<EntityId> {
        Set::new(|entity: EntityId| self.zone_of(entity) == Some(zone))
    }

    /// The number of cards in a zone: the length of its order, or the
    /// number of its members where it keeps none.
    pub open spec fn size(self, zone: ZoneId) -> nat {
        if self.is_ordered(zone) {
            self.order(zone).len()
        } else {
            self.members(zone).len()
        }
    }

    /// The orders agree with the locations: an ordered zone lists exactly
    /// its members, each once. So no entity is in two orders.
    pub open spec fn wf(self) -> bool {
        &&& self.locations.dom().finite()
        &&& self.orders.dom().finite()
        &&& forall|zone: u32| #[trigger] self.orders.contains_key(zone) ==> zone <= u16::MAX
        &&& forall|zone: u32| #[trigger]
            self.orders.contains_key(zone) ==> self.orders[zone].no_duplicates()
        &&& forall|zone: u32, entity: EntityId|
            self.orders.contains_key(zone) ==> (#[trigger] self.orders[zone].contains(entity)
                <==> self.zone_of(entity) == Some(ZoneId(zone as u16)))
    }

    /// The zones after `zone` is declared ordered: it gets an empty order
    /// unless it has one.
    pub open spec fn with_ordered_zone(self, zone: ZoneId) -> ZoneView {
        if self.is_ordered(zone) {
            self
        } else {
            ZoneView { orders: self.orders.insert(zone.0 as u32, Seq::empty()), ..self }
        }
    }

    /// The zones after an entity is added to a zone.
    pub open spec fn with_added(
        self,
        entity: EntityId,
        zone: ZoneId,
        position: Option<ZonePosition>,
    ) -> ZoneView {
        ZoneView {
            locations: self.locations.insert(entity.0, zone),
            orders: if self.is_ordered(zone) {
                self.orders.insert(zone.0 as u32, placed(self.order(zone), entity, position))
            } else {
                self.orders
            },
        }
    }

    /// The zones after an entity is taken out of the zone it is in.
    pub open spec fn without(self, entity: EntityId) -> ZoneView {
        match self.zone_of(entity) {
            None => self,
            Some(zone) => ZoneView {
                locations: self.locations.remove(entity.0),
                orders: if self.is_ordered(zone) {
                    self.orders.insert(
                        zone.0 as u32,
                        self.order(zone).filter(other_than(entity)),
                    )
                } else {
                    self.orders
                },
            },
        }
    }

    /// The zones after an entity moves to a zone. Nothing changes where the
    /// entity is in no zone, or in that zone already.
    pub open spec fn moved(
        self,
        entity: EntityId,
        zone: ZoneId,
        position: Option<ZonePosition>,
    ) -> ZoneView {
        match self.zone_of(entity) {
            None => self,
            Some(from) => if from == zone {
                self
            } else {
                self.without(entity).with_added(entity, zone, position)
            },
        }
    }

    /// The zones after the top card of a non-empty ordered zone is taken.
    pub open spec fn without_top(self, zone: ZoneId) -> ZoneView {
        ZoneView {
            locations: self.locations.remove(self.order(zone).last().0),
            orders: self.orders.insert(zone.0 as u32, self.order(zone).drop_last()),
        }
    }

    /// The zones after the bottom card of a non-empty ordered zone is
    /// taken.
    pub open spec fn without_bottom(self, zone: ZoneId) -> ZoneView {
        ZoneView {
            locations: self.locations.remove(self.order(zone).first().0),
            orders: self.orders.insert(zone.0 as u32, self.order(zone).drop_first()),
        }
    }

    /// The same zones with the cards of one ordered zone in another order.
    pub open spec fn reordered(self, zone: ZoneId, other: ZoneView) -> bool {
        &&& other.locations == self.locations
        &&& other.orders.dom() == self.orders.dom()
        &&& forall|key: u32|
            self.orders.contains_key(key) && key != zone.0 ==> #[trigger] other.orders[key]
                == self.orders[key]
        &&& other.order(zone).to_multiset() == self.order(zone).to_multiset()
    }
}

/// The orders of a map of vectors.
pub open spec fn order_seqs(orders: Map<u32, Vec<EntityId>>) -> Map<u32, Seq<EntityId>> {
    Map::new(|zone: u32| orders.contains_key(zone), |zone: u32| orders[zone]@)
}

/// Tracks the zone of every card, and the order within ordered zones.
#[derive(Debug)]
pub struct ZoneManager {
    locations: IdMap<ZoneId>,
    zone_order: IdMap<Vec<EntityId>>,
}

impl View for ZoneManager {
    type V = ZoneView;

    closed spec fn view(&self) -> ZoneView {
        ZoneView { locations: self.locations@, orders: order_seqs(self.zone_order@) }
    }
}

/// Puts an entity into an order where `position` says.
fn place(order: &mut Vec<EntityId>, entity: EntityId, position: Option<ZonePosition>)
    ensures
        final(order)@ == placed(old(order)@, entity, position),
{
    match position {
        None => order.push(entity),
        Some(ZonePosition::Top) => order.push(entity),
        Some(ZonePosition::Bottom) => order.insert(0, entity),
        Some(ZonePosition::Index(index)) => {
            let at = if index < order.len() {
                index
            } else {
                order.len()
            };
            order.insert(at, entity);
        },
    }
}

/// Takes every occurrence of an entity out of an order.
fn drop_entity(order: &mut Vec<EntityId>, entity: EntityId)
    ensures
        final(order)@ == old(order)@.filter(other_than(entity)),
{
    let mut kept: Vec<EntityId> = Vec::new();
    let mut next: usize = 0;
    proof {
        reveal(Seq::filter);
        assert(order@.take(0) =~= Seq::<EntityId>::empty());
    }
    while next < order.len()
        invariant
            next <= order@.len(),
            order@ == old(order)@,
            kept@ == order@.take(next as int).filter(other_than(entity)),
        decreases order@.len() - next,
    {
        let current = order[next];
        proof {
            assert(order@.take(next as int + 1) =~= order@.take(next as int).push(current));
            order@.take(next as int).lemma_filter_push(current, other_than(entity));
        }
        if current != entity {
            kept.push(current);
        }
        next = next + 1;
    }
    proof {
        assert(order@.take(order@.len() as int) =~= order@);
    }
    *order = kept;
}

impl ZoneManager {
    /// A manager without cards and without ordered zones.
    pub fn new() -> (zones: Self)
        ensures
            zones@ == (ZoneView { locations: Map::empty(), orders: Map::empty() }),
            zones@.wf(),
    {
        let zones = ZoneManager { locations: id_map_new(), zone_order: id_map_new() };
        assert(zones@.orders =~= Map::<u32, Seq<EntityId>>::empty());
        zones
    }

    /// Declares a zone ordered. Cards that are in it already are not put
    /// into its order.
    pub fn init_ordered_zone(&mut self, zone: ZoneId)
        ensures
            final(self)@ == old(self)@.with_ordered_zone(zone),
    {
        if id_map_get(&self.zone_order, zone.0 as u32).is_none() {
            let _ = id_map_insert(&mut self.zone_order, zone.0 as u32, Vec::new());
            assert(self@.orders =~= old(self)@.orders.insert(zone.0 as u32, Seq::empty()));
        }
    }

    /// Whether a zone keeps its cards in order.
    pub fn is_ordered(&self, zone: ZoneId) -> (ordered: bool)
        ensures
            ordered == self@.is_ordered(zone),
    {
        id_map_get(&self.zone_order, zone.0 as u32).is_some()
    }

    /// Adds an entity that is in no zone to a zone; in an ordered zone, at
    /// the given position, or on top where none is given.
    pub fn add_to_zone(&mut self, entity: EntityId, zone: ZoneId, position: Option<ZonePosition>)
        requires
            old(self)@.zone_of(entity) is None,
        ensures
            final(self)@ == old(self)@.with_added(entity, zone, position),
            old(self)@.wf() ==> final(self)@.wf(),
    {
        let _ = id_map_insert(&mut self.locations, entity.0, zone);
        self.insert_in_order(entity, zone, position);
        proof {
            if old(self)@.wf() {
                lemma_with_added_wf(old(self)@, entity, zone, position);
            }
        }
    }

    /// Puts an entity into the order of a zone, if the zone has one.
    fn insert_in_order(&mut self, entity: EntityId, zone: ZoneId, position: Option<ZonePosition>)
        ensures
            final(self).locations == old(self).locations,
            final(self)@.orders == (if old(self)@.is_ordered(zone) {
                old(self)@.orders.insert(
                    zone.0 as u32,
                    placed(old(self)@.order(zone), entity, position),
                )
            } else {
                old(self)@.orders
            }),
    {
        match id_map_get_mut(&mut self.zone_order, zone.0 as u32) {
            Some(order) => {
                place(order, entity, position);
            },
            None => {},
        }
        assert(self@.orders =~= (if old(self)@.is_ordered(zone) {
            old(self)@.orders.insert(
                zone.0 as u32,
                placed(old(self)@.order(zone), entity, position),
            )
        } else {
            old(self)@.orders
        }));
    }

    /// Takes an entity out of the order of a zone, if the zone has one.
    fn remove_from_order(&mut self, entity: EntityId, zone: ZoneId)
        ensures
            final(self).locations == old(self).locations,
            final(self)@.orders == (if old(self)@.is_ordered(zone) {
                old(self)@.orders.insert(
                    zone.0 as u32,
                    old(self)@.order(zone).filter(other_than(entity)),
                )
            } else {
                old(self)@.orders
            }),
    {
        match id_map_get_mut(&mut self.zone_order, zone.0 as u32) {
            Some(order) => {
                drop_entity(order, entity);
            },
            None => {},
        }
        assert(self@.orders =~= (if old(self)@.is_ordered(zone) {
            old(self)@.orders.insert(
                zone.0 as u32,
                old(self)@.order(zone).filter(other_than(entity)),
            )
        } else {
            old(self)@.orders
        }));
    }

    /// Moves an entity to a zone and gives the zone it was in. An entity
    /// that is in no zone stays out, and `None` comes back; one that is in
    /// the zone already keeps its place.
    pub fn move_to_zone(
        &mut self,
        entity: EntityId,
        new_zone: ZoneId,
        position: Option<ZonePosition>,
    ) -> (old_zone: Option<ZoneId>)
        ensures
            old_zone == old(self)@.zone_of(entity),
            final(self)@ == old(self)@.moved(entity, new_zone, position),
            old(self)@.wf() ==> final(self)@.wf(),
    {
        let old_zone = match id_map_get(&self.locations, entity.0) {
            Some(zone) => *zone,
            None => {
                return None;
            },
        };
        if old_zone == new_zone {
            return Some(old_zone);
        }
        self.remove_from_order(entity, old_zone);
        let _ = id_map_insert(&mut self.locations, entity.0, new_zone);
        self.insert_in_order(entity, new_zone, position);
        proof {
            let gone = old(self)@.without(entity);
            assert(gone.locations.insert(entity.0, new_zone) =~= old(self)@.locations.insert(
                entity.0,
                new_zone,
            ));
            assert(self@.locations =~= gone.with_added(entity, new_zone, position).locations);
            assert(self@.orders =~= gone.with_added(entity, new_zone, position).orders);
            if old(self)@.wf() {
                lemma_without_wf(old(self)@, entity);
                lemma_with_added_wf(gone, entity, new_zone, position);
            }
        }
        Some(old_zone)
    }

    /// Takes an entity out of its zone and gives that zone; `None` where
    /// it was in no zone.
    pub fn remove(&mut self, entity: EntityId) -> (zone: Option<ZoneId>)
        ensures
            zone == old(self)@.zone_of(entity),
            final(self)@ == old(self)@.without(entity),
            old(self)@.wf() ==> final(self)@.wf(),
    {
        match id_map_remove(&mut self.locations, entity.0) {
            Some(zone) => {
                self.remove_from_order(entity, zone);
                proof {
                    if old(self)@.wf() {
                        lemma_without_wf(old(self)@, entity);
                    }
                }
                Some(zone)
            },
            None => {
                assert(self@.locations =~= old(self)@.locations);
                None
            },
        }
    }

    /// The zone an entity is in, if it is in one.
    pub fn get_zone(&self, entity: EntityId) -> (zone: Option<ZoneId>)
        ensures
            zone == self@.zone_of(entity),
    {
        match id_map_get(&self.locations, entity.0) {
            Some(zone) => Some(*zone),
            None => None,
        }
    }

    /// Whether an entity is in a zone.
    pub fn is_in_zone(&self, entity: EntityId, zone: ZoneId) -> (found: bool)
        ensures
            found == (self@.zone_of(entity) == Some(zone)),
    {
        match id_map_get(&self.locations, entity.0) {
            Some(current) => *current == zone,
            None => false,
        }
    }

    /// The entities of a zone, each once, in no particular order.
    pub fn cards_in_zone(&self, zone: ZoneId) -> (cards: Vec<EntityId>)
        ensures
            cards@.no_duplicates(),
            forall|entity: EntityId| #[trigger]
                cards@.contains(entity) <==> self@.zone_of(entity) == Some(zone),
    {
        let keys = id_map_keys(&self.locations);
        let mut cards: Vec<EntityId> = Vec::new();
        let mut next: usize = 0;
        while next < keys.len()
            invariant
                next <= keys@.len(),
                keys@.no_duplicates(),
                forall|key: u32| #[trigger]
                    keys@.contains(key) <==> self.locations@.contains_key(key),
                forall|i: int|
                    0 <= i < cards@.len() ==> self@.zone_of(#[trigger] cards@[i]) == Some(zone)
                        && exists|k: int| 0 <= k < next && #[trigger] keys@[k] == cards@[i].0,
                forall|i: int, j: int|
                    0 <= i < j < cards@.len() ==> #[trigger] cards@[i] != #[trigger] cards@[j],
                forall|k: int|
                    0 <= k < next && self.locations@[#[trigger] keys@[k]] == zone
                        ==> cards@.contains(EntityId(keys@[k])),
            decreases keys@.len() - next,
        {
            let key = keys[next];
            assert(keys@.contains(key));
            let ghost before = cards@;
            match id_map_get(&self.locations, key) {
                Some(current) => {
                    if *current == zone {
                        cards.push(EntityId(key));
                        proof {
                            assert(cards@[before.len() as int] == EntityId(key));
                            assert forall|i: int| 0 <= i < cards@.len() implies self@.zone_of(
                                #[trigger] cards@[i],
                            ) == Some(zone) && exists|k: int|
                                0 <= k < next + 1 && #[trigger] keys@[k] == cards@[i].0 by {
                                if i < before.len() {
                                    assert(cards@[i] == before[i]);
                                    let k = choose|k: int|
                                        0 <= k < next && #[trigger] keys@[k] == before[i].0;
                                    assert(keys@[k] == cards@[i].0);
                                } else {
                                    assert(keys@[next as int] == cards@[i].0);
                                }
                            }
                            assert forall|i: int, j: int|
                                0 <= i < j < cards@.len() implies #[trigger] cards@[i]
                                != #[trigger] cards@[j] by {
                                if j == before.len() {
                                    assert(cards@[i] == before[i]);
                                    let k = choose|k: int|
                                        0 <= k < next && #[trigger] keys@[k] == before[i].0;
                                    assert(keys@[k] != keys@[next as int]);
                                } else {
                                    assert(cards@[i] == before[i] && cards@[j] == before[j]);
                                }
                            }
                            assert forall|k: int|
                                0 <= k < next + 1 && self.locations@[#[trigger] keys@[k]]
                                    == zone implies cards@.contains(EntityId(keys@[k])) by {
                                if k < next {
                                    let i = choose|i: int|
                                        0 <= i < before.len() && before[i] == EntityId(keys@[k]);
                                    assert(cards@[i] == EntityId(keys@[k]));
                                } else {
                                    assert(cards@[before.len() as int] == EntityId(keys@[k]));
                                }
                            }
                        }
                    }
                },
                None => {},
            }
            next = next + 1;
        }
        proof {
            assert forall|entity: EntityId| #[trigger]
                cards@.contains(entity) <==> self@.zone_of(entity) == Some(zone) by {
                if self@.zone_of(entity) == Some(zone) {
                    assert(keys@.contains(entity.0));
                    let k = choose|k: int| 0 <= k < keys@.len() && keys@[k] == entity.0;
                    assert(keys@[k] == entity.0);
                    assert(cards@.contains(EntityId(keys@[k])));
                }
                if cards@.contains(entity) {
                    let i = choose|i: int| 0 <= i < cards@.len() && cards@[i] == entity;
                    assert(self@.zone_of(cards@[i]) == Some(zone));
                }
            }
        }
        cards
    }

    /// The cards of an ordered zone from bottom to top; nothing for a zone
    /// that keeps no order.
    pub fn cards_in_zone_ordered(&self, zone: ZoneId) -> (cards: &[EntityId])
        ensures
            cards@ == self@.order(zone),
    {
        match id_map_get(&self.zone_order, zone.0 as u32) {
            Some(order) => order.as_slice(),
            None => &[],
        }
    }

    /// The number of cards in a zone.
    pub fn zone_size(&self, zone: ZoneId) -> (size: usize)
        ensures
            size == self@.size(zone),
    {
        match id_map_get(&self.zone_order, zone.0 as u32) {
            Some(order) => order.len(),
            None => {
                let cards = self.cards_in_zone(zone);
                proof {
                    cards@.unique_seq_to_set();
                    assert(cards@.to_set() =~= self@.members(zone));
                }
                cards.len()
            },
        }
    }

    /// The top card of an ordered zone, if it has one.
    pub fn top_card(&self, zone: ZoneId) -> (card: Option<EntityId>)
        ensures
            card == (if self@.order(zone).len() > 0 {
                Some(self@.order(zone).last())
            } else {
                None
            }),
    {
        match id_map_get(&self.zone_order, zone.0 as u32) {
            Some(order) => {
                if order.len() > 0 {
                    Some(order[order.len() - 1])
                } else {
                    None
                }
            },
            None => None,
        }
    }

    /// The bottom card of an ordered zone, if it has one.
    pub fn bottom_card(&self, zone: ZoneId) -> (card: Option<EntityId>)
        ensures
            card == (if self@.order(zone).len() > 0 {
                Some(self@.order(zone).first())
            } else {
                None
            }),
    {
        match id_map_get(&self.zone_order, zone.0 as u32) {
            Some(order) => {
                if order.len() > 0 {
                    Some(order[0])
                } else {
                    None
                }
            },
            None => None,
        }
    }

    /// Takes the top card of an ordered zone out of the zone. Nothing
    /// happens where the zone is empty or keeps no order.
    pub fn pop_top(&mut self, zone: ZoneId) -> (card: Option<EntityId>)
        ensures
            card == (if old(self)@.order(zone).len() > 0 {
                Some(old(self)@.order(zone).last())
            } else {
                None
            }),
            final(self)@ == (if old(self)@.order(zone).len() > 0 {
                old(self)@.without_top(zone)
            } else {
                old(self)@
            }),
            old(self)@.wf() ==> final(self)@.wf(),
    {
        let popped = match id_map_get_mut(&mut self.zone_order, zone.0 as u32) {
            Some(order) => order.pop(),
            None => None,
        };
        match popped {
            Some(entity) => {
                let _ = id_map_remove(&mut self.locations, entity.0);
                proof {
                    assert(self@.orders =~= old(self)@.without_top(zone).orders);
                    if old(self)@.wf() {
                        lemma_without_top_wf(old(self)@, zone);
                    }
                }
                Some(entity)
            },
            None => {
                assert(self@.orders =~= old(self)@.orders);
                None
            },
        }
    }

    /// Takes the bottom card of an ordered zone out of the zone. Nothing
    /// happens where the zone is empty or keeps no order.
    pub fn pop_bottom(&mut self, zone: ZoneId) -> (card: Option<EntityId>)
        ensures
            card == (if old(self)@.order(zone).len() > 0 {
                Some(old(self)@.order(zone).first())
            } else {
                None
            }),
            final(self)@ == (if old(self)@.order(zone).len() > 0 {
                old(self)@.without_bottom(zone)
            } else {
                old(self)@
            }),
            old(self)@.wf() ==> final(self)@.wf(),
    {
        let popped = match id_map_get_mut(&mut self.zone_order, zone.0 as u32) {
            Some(order) => {
                if order.len() == 0 {
                    None
                } else {
                    Some(order.remove(0))
                }
            },
            None => None,
        };
        match popped {
            Some(entity) => {
                let _ = id_map_remove(&mut self.locations, entity.0);
                proof {
                    assert(old(self)@.order(zone).remove(0) =~= old(self)@.order(zone).drop_first());
                    assert(self@.orders =~= old(self)@.without_bottom(zone).orders);
                    if old(self)@.wf() {
                        lemma_without_bottom_wf(old(self)@, zone);
                    }
                }
                Some(entity)
            },
            None => {
                assert(self@.orders =~= old(self)@.orders);
                None
            },
        }
    }

    /// Puts the cards of an ordered zone in a drawn order: the order that
    /// the generator's shuffle gives to as many items. Nothing happens
    /// where the zone keeps no order.
    pub fn shuffle_zone(&mut self, zone: ZoneId, rng: &mut GameRng)
        ensures
            old(self)@.reordered(zone, final(self)@),
            !old(self)@.is_ordered(zone) ==> final(self)@ == old(self)@ && final(rng)@ == old(
                rng,
            )@,
            final(rng)@.seed == old(rng)@.seed,
            final(rng)@.fork_counter == old(rng)@.fork_counter,
            old(self)@.is_ordered(zone) ==> arranged(
                old(self)@.order(zone),
                final(self)@.order(zone),
                shuffled(old(rng)@.seed, old(rng)@.word_pos, old(self)@.order(zone).len()).0,
            ) && final(rng)@.word_pos == shuffled(
                old(rng)@.seed,
                old(rng)@.word_pos,
                old(self)@.order(zone).len(),
            ).1,
            old(self)@.wf() ==> final(self)@.wf(),
    {
        match id_map_get_mut(&mut self.zone_order, zone.0 as u32) {
            Some(order) => {
                rng.shuffle(order);
            },
            None => {},
        }
        proof {
            assert(self@.orders.dom() =~= old(self)@.orders.dom());
            if !old(self)@.is_ordered(zone) {
                assert(self@.orders =~= old(self)@.orders);
            }
            if old(self)@.wf() {
                lemma_reordered_wf(old(self)@, zone, self@);
            }
        }
    }

    /// The number of cards in all zones.
    pub fn total_cards(&self) -> (count: usize)
        ensures
            count == self@.locations.len(),
    {
        id_map_len(&self.locations)
    }

    /// Whether an entity is in a zone.
    pub fn contains(&self, entity: EntityId) -> (found: bool)
        ensures
            found == (self@.zone_of(entity) is Some),
    {
        id_map_get(&self.locations, entity.0).is_some()
    }
}

impl Default for ZoneManager {
    fn default() -> (zones: Self)
        ensures
            zones@ == (ZoneView { locations: Map::empty(), orders: Map::empty() }),
    {
        ZoneManager::new()
    }
}

impl Clone for ZoneManager {
    fn clone(&self) -> (copy: Self)
        ensures
            copy@ == self@,
    {
        let copy = ZoneManager {
            locations: id_map_clone(&self.locations),
            zone_order: id_map_clone(&self.zone_order),
        };
        proof {
            assert(copy.locations@ =~= self.locations@);
            assert forall|zone: u32| self.zone_order@.contains_key(zone) implies #[trigger]
                copy.zone_order@[zone]@ == self.zone_order@[zone]@ by {
                assert(cloned(self.zone_order@[zone], copy.zone_order@[zone]));
                assert(copy.zone_order@[zone]@ =~= self.zone_order@[zone]@);
            }
            assert(copy@.orders =~= self@.orders);
        }
        copy
    }
}

/// An order that does not hold an entity is the same without it.
pub proof fn lemma_filter_absent(order: Seq<EntityId>, entity: EntityId)
    requires
        !order.contains(entity),
    ensures
        order.filter(other_than(entity)) == order,
    decreases order.len(),
{
    if order.len() == 0 {
        reveal(Seq::filter);
    } else {
        let rest = order.drop_last();
        let last = order.last();
        assert(order[order.len() - 1] != entity);
        assert(!rest.contains(entity)) by {
            if rest.contains(entity) {
                let i = choose|i: int| 0 <= i < rest.len() && rest[i] == entity;
                assert(order[i] == entity);
            }
        }
        lemma_filter_absent(rest, entity);
        assert(rest.push(last) =~= order);
        rest.lemma_filter_push(last, other_than(entity));
    }
}

/// The order of one entity, without that entity, is empty.
pub proof fn lemma_filter_single(entity: EntityId)
    ensures
        seq![entity].filter(other_than(entity)) == Seq::<EntityId>::empty(),
{
    let none = Seq::<EntityId>::empty();
    assert(none.filter(other_than(entity)) == none) by {
        reveal(Seq::filter);
    }
    none.lemma_filter_push(entity, other_than(entity));
    assert(none.push(entity) =~= seq![entity]);
}

/// An order with one more entity at its end has no entity twice, where it
/// had none twice and the entity is new.
pub proof fn lemma_push_no_duplicates(order: Seq<EntityId>, entity: EntityId)
    requires
        order.no_duplicates(),
        !order.contains(entity),
    ensures
        order.push(entity).no_duplicates(),
{
    let longer = order.push(entity);
    assert forall|i: int, j: int| 0 <= i < longer.len() && 0 <= j < longer.len() && i
        != j implies longer[i] != longer[j] by {
        if i < order.len() && j < order.len() {
            assert(longer[i] == order[i] && longer[j] == order[j]);
        } else if i < order.len() {
            assert(order.contains(order[i]));
        } else {
            assert(order.contains(order[j]));
        }
    }
}

/// An order without an entity holds every other entity it held, and no
/// more.
pub proof fn lemma_filter_members(order: Seq<EntityId>, entity: EntityId)
    ensures
        forall|other: EntityId| #[trigger]
            order.filter(other_than(entity)).contains(other) <==> other != entity
                && order.contains(other),
{
    let kept = order.filter(other_than(entity));
    assert forall|other: EntityId| #[trigger]
        kept.contains(other) <==> other != entity && order.contains(other) by {
        if kept.contains(other) {
            order.lemma_filter_contains_rev(other_than(entity), other);
            let i = choose|i: int| 0 <= i < kept.len() && kept[i] == other;
            order.lemma_filter_pred(other_than(entity), i);
        }
        if other != entity && order.contains(other) {
            let j = choose|j: int| 0 <= j < order.len() && order[j] == other;
            order.lemma_filter_contains(other_than(entity), j);
        }
    }
}

/// An order without an entity has no entity twice, where it had none
/// twice.
pub proof fn lemma_filter_no_duplicates(order: Seq<EntityId>, entity: EntityId)
    requires
        order.no_duplicates(),
    ensures
        order.filter(other_than(entity)).no_duplicates(),
    decreases order.len(),
{
    if order.len() == 0 {
        reveal(Seq::filter);
    } else {
        let rest = order.drop_last();
        let last = order.last();
        assert(rest.push(last) =~= order);
        rest.lemma_filter_push(last, other_than(entity));
        lemma_filter_no_duplicates(rest, entity);
        if last != entity {
            let kept_rest = rest.filter(other_than(entity));
            lemma_filter_members(rest, entity);
            assert(!rest.contains(last)) by {
                if rest.contains(last) {
                    let j = choose|j: int| 0 <= j < rest.len() && rest[j] == last;
                    assert(order[j] == order[order.len() - 1]);
                }
            }
            lemma_push_no_duplicates(kept_rest, last);
        }
    }
}

/// The position at which `placed` puts the new entity.
pub open spec fn place_index(order: Seq<EntityId>, position: Option<ZonePosition>) -> int {
    match position {
        None => order.len() as int,
        Some(ZonePosition::Top) => order.len() as int,
        Some(ZonePosition::Bottom) => 0,
        Some(ZonePosition::Index(index)) => if index < order.len() {
            index as int
        } else {
            order.len() as int
        },
    }
}

/// `placed` inserts at `place_index`.
pub proof fn lemma_placed_is_insert(
    order: Seq<EntityId>,
    entity: EntityId,
    position: Option<ZonePosition>,
)
    ensures
        0 <= place_index(order, position) <= order.len(),
        placed(order, entity, position) == order.insert(place_index(order, position), entity),
{
    assert(order.push(entity) =~= order.insert(order.len() as int, entity));
}

/// An order with an entity inserted holds that entity and what it held.
pub proof fn lemma_insert_members(order: Seq<EntityId>, at: int, entity: EntityId)
    requires
        0 <= at <= order.len(),
    ensures
        forall|other: EntityId| #[trigger]
            order.insert(at, entity).contains(other) <==> other == entity || order.contains(
                other,
            ),
{
    let longer = order.insert(at, entity);
    assert forall|other: EntityId| #[trigger]
        longer.contains(other) <==> other == entity || order.contains(other) by {
        if longer.contains(other) {
            let i = choose|i: int| 0 <= i < longer.len() && longer[i] == other;
            if i < at {
                assert(order[i] == other);
            } else if i > at {
                assert(order[i - 1] == other);
            }
        }
        if other == entity {
            assert(longer[at] == other);
        }
        if order.contains(other) {
            let j = choose|j: int| 0 <= j < order.len() && order[j] == other;
            if j < at {
                assert(longer[j] == other);
            } else {
                assert(longer[j + 1] == other);
            }
        }
    }
}

/// An order with a new entity inserted has no entity twice, where it had
/// none twice.
pub proof fn lemma_insert_no_duplicates(order: Seq<EntityId>, at: int, entity: EntityId)
    requires
        0 <= at <= order.len(),
        order.no_duplicates(),
        !order.contains(entity),
    ensures
        order.insert(at, entity).no_duplicates(),
{
    let longer = order.insert(at, entity);
    assert forall|i: int, j: int| 0 <= i < longer.len() && 0 <= j < longer.len() && i
        != j implies longer[i] != longer[j] by {
        if i != at {
            let a = if i < at {
                i
            } else {
                i - 1
            };
            assert(longer[i] == order[a]);
            assert(order.contains(order[a]));
        }
        if j != at {
            let b = if j < at {
                j
            } else {
                j - 1
            };
            assert(longer[j] == order[b]);
            assert(order.contains(order[b]));
        }
    }
}

/// Inserting a new entity and taking it out again gives the order back.
pub proof fn lemma_insert_then_filter(order: Seq<EntityId>, at: int, entity: EntityId)
    requires
        0 <= at <= order.len(),
        !order.contains(entity),
    ensures
        order.insert(at, entity).filter(other_than(entity)) == order,
{
    let head = order.take(at);
    let tail = order.skip(at);
    let keep = other_than(entity);
    assert(!head.contains(entity)) by {
        if head.contains(entity) {
            let i = choose|i: int| 0 <= i < head.len() && head[i] == entity;
            assert(order[i] == entity);
        }
    }
    assert(!tail.contains(entity)) by {
        if tail.contains(entity) {
            let i = choose|i: int| 0 <= i < tail.len() && tail[i] == entity;
            assert(order[i + at] == entity);
        }
    }
    lemma_filter_absent(head, entity);
    lemma_filter_absent(tail, entity);
    head.lemma_filter_push(entity, keep);
    assert(head.push(entity).filter(keep) == head);
    Seq::filter_distributes_over_add(head.push(entity), tail, keep);
    assert((head.push(entity) + tail).filter(keep) == head + tail);
    assert(order.insert(at, entity) == head.push(entity) + tail) by {
        assert(order.insert(at, entity) =~= head.push(entity) + tail);
    }
    assert(head + tail == order) by {
        assert(head + tail =~= order);
    }
}

/// An order with one more entity holds that entity and what it held; where
/// the entity is new and nothing occurred twice, nothing does now; and
/// taking the entity out again gives the order back.
pub proof fn lemma_placed_members(
    order: Seq<EntityId>,
    entity: EntityId,
    position: Option<ZonePosition>,
)
    ensures
        forall|other: EntityId| #[trigger]
            placed(order, entity, position).contains(other) <==> other == entity
                || order.contains(other),
        order.no_duplicates() && !order.contains(entity) ==> placed(
            order,
            entity,
            position,
        ).no_duplicates(),
        !order.contains(entity) ==> placed(order, entity, position).filter(other_than(entity))
            == order,
{
    let at = place_index(order, position);
    lemma_placed_is_insert(order, entity, position);
    lemma_insert_members(order, at, entity);
    if !order.contains(entity) {
        lemma_insert_then_filter(order, at, entity);
        if order.no_duplicates() {
            lemma_insert_no_duplicates(order, at, entity);
        }
    }
}

/// Adding an entity that is in no zone keeps the orders in agreement with
/// the locations.
pub proof fn lemma_with_added_wf(
    zones: ZoneView,
    entity: EntityId,
    zone: ZoneId,
    position: Option<ZonePosition>,
)
    requires
        zones.wf(),
        zones.zone_of(entity) is None,
    ensures
        zones.with_added(entity, zone, position).wf(),
{
    let after = zones.with_added(entity, zone, position);
    lemma_placed_members(zones.order(zone), entity, position);
    assert forall|key: u32, other: EntityId| after.orders.contains_key(key) implies (
    #[trigger] after.orders[key].contains(other) <==> after.zone_of(other) == Some(
        ZoneId(key as u16),
    )) by {
        assert(zones.orders.contains_key(key));
        assert(zones.orders[key].contains(other) <==> zones.zone_of(other) == Some(
            ZoneId(key as u16),
        ));
        assert(!zones.orders[key].contains(entity));
    }
    assert forall|key: u32| #[trigger] after.orders.contains_key(key) implies after.orders[key].no_duplicates() by {
        assert(zones.orders.contains_key(key));
        assert(zones.orders[key].contains(entity) <==> zones.zone_of(entity) == Some(
            ZoneId(key as u16),
        ));
    }
}

/// Taking an entity out keeps the orders in agreement with the locations.
pub proof fn lemma_without_wf(zones: ZoneView, entity: EntityId)
    requires
        zones.wf(),
    ensures
        zones.without(entity).wf(),
        zones.without(entity).zone_of(entity) is None,
{
    let after = zones.without(entity);
    match zones.zone_of(entity) {
        None => {},
        Some(zone) => {
            lemma_filter_members(zones.order(zone), entity);
            if zones.is_ordered(zone) {
                lemma_filter_no_duplicates(zones.order(zone), entity);
            }
            assert forall|key: u32, other: EntityId| after.orders.contains_key(key) implies (
            #[trigger] after.orders[key].contains(other) <==> after.zone_of(other) == Some(
                ZoneId(key as u16),
            )) by {
                assert(zones.orders.contains_key(key));
                assert(zones.orders[key].contains(other) <==> zones.zone_of(other) == Some(
                    ZoneId(key as u16),
                ));
                assert(zones.orders[key].contains(entity) <==> zones.zone_of(entity) == Some(
                    ZoneId(key as u16),
                ));
            }
            assert forall|key: u32| #[trigger] after.orders.contains_key(key) implies after.orders[key].no_duplicates() by {
                assert(zones.orders.contains_key(key));
            }
        },
    }
}

/// Taking the top card of a non-empty ordered zone keeps the orders in
/// agreement with the locations.
pub proof fn lemma_without_top_wf(zones: ZoneView, zone: ZoneId)
    requires
        zones.wf(),
        zones.order(zone).len() > 0,
    ensures
        zones.without_top(zone).wf(),
        zones.without_top(zone) == zones.without(zones.order(zone).last()),
{
    let order = zones.order(zone);
    let top = order.last();
    assert(order.contains(top)) by {
        assert(order[order.len() - 1] == top);
    }
    assert(zones.zone_of(top) == Some(ZoneId(zone.0 as u32 as u16)));
    lemma_drop_last_is_filter(order);
    assert(zones.without_top(zone).orders =~= zones.without(top).orders);
    lemma_without_wf(zones, top);
}

/// Taking the bottom card of a non-empty ordered zone keeps the orders in
/// agreement with the locations.
pub proof fn lemma_without_bottom_wf(zones: ZoneView, zone: ZoneId)
    requires
        zones.wf(),
        zones.order(zone).len() > 0,
    ensures
        zones.without_bottom(zone).wf(),
        zones.without_bottom(zone) == zones.without(zones.order(zone).first()),
{
    let order = zones.order(zone);
    let bottom = order.first();
    assert(order.contains(bottom)) by {
        assert(order[0] == bottom);
    }
    assert(zones.zone_of(bottom) == Some(ZoneId(zone.0 as u32 as u16)));
    lemma_drop_first_is_filter(order);
    assert(zones.without_bottom(zone).orders =~= zones.without(bottom).orders);
    lemma_without_wf(zones, bottom);
}

/// Where nothing occurs twice, an order without its last entity is the
/// order without that entity.
pub proof fn lemma_drop_last_is_filter(order: Seq<EntityId>)
    requires
        order.len() > 0,
        order.no_duplicates(),
    ensures
        order.drop_last() == order.filter(other_than(order.last())),
{
    let rest = order.drop_last();
    assert(!rest.contains(order.last())) by {
        if rest.contains(order.last()) {
            let i = choose|i: int| 0 <= i < rest.len() && rest[i] == order.last();
            assert(order[i] == order[order.len() - 1]);
        }
    }
    lemma_filter_absent(rest, order.last());
    assert(rest.push(order.last()) =~= order);
    rest.lemma_filter_push(order.last(), other_than(order.last()));
}

/// Where nothing occurs twice, an order without its first entity is the
/// order without that entity.
pub proof fn lemma_drop_first_is_filter(order: Seq<EntityId>)
    requires
        order.len() > 0,
        order.no_duplicates(),
    ensures
        order.drop_first() == order.filter(other_than(order.first())),
{
    let rest = order.drop_first();
    let first = order.first();
    assert(!rest.contains(first)) by {
        if rest.contains(first) {
            let i = choose|i: int| 0 <= i < rest.len() && rest[i] == first;
            assert(order[i + 1] == order[0]);
        }
    }
    assert(order =~= seq![first] + rest);
    Seq::filter_distributes_over_add(seq![first], rest, other_than(first));
    lemma_filter_absent(rest, first);
    lemma_filter_single(first);
    assert(Seq::<EntityId>::empty() + rest =~= rest);
}

/// Putting the cards of one zone in another order keeps the orders in
/// agreement with the locations.
pub proof fn lemma_reordered_wf(zones: ZoneView, zone: ZoneId, after: ZoneView)
    requires
        zones.wf(),
        zones.reordered(zone, after),
    ensures
        after.wf(),
{
    broadcast use vstd::seq_lib::group_to_multiset_ensures;

    assert forall|key: u32| #[trigger] after.orders.contains_key(key) implies after.orders[key].no_duplicates() by {
        assert(zones.orders.contains_key(key));
        if key == zone.0 {
            zones.orders[key].lemma_multiset_has_no_duplicates();
            after.orders[key].lemma_multiset_has_no_duplicates_conv();
        } else {
            assert(after.orders[key] == zones.orders[key]);
        }
    }
    assert forall|key: u32, other: EntityId| after.orders.contains_key(key) implies (
    #[trigger] after.orders[key].contains(other) <==> after.zone_of(other) == Some(
        ZoneId(key as u16),
    )) by {
        assert(zones.orders.contains_key(key));
        assert(zones.orders[key].contains(other) <==> zones.zone_of(other) == Some(
            ZoneId(key as u16),
        ));
        if key == zone.0 {
            assert(after.orders[key].to_multiset().count(other) == zones.orders[key].to_multiset().count(other));
        } else {
            assert(after.orders[key] == zones.orders[key]);
        }
    }
}

/// Adding an entity that is in no zone and taking it out again leaves the
/// zones as they were.
pub proof fn lemma_add_then_remove(
    zones: ZoneView,
    entity: EntityId,
    zone: ZoneId,
    position: Option<ZonePosition>,
)
    requires
        zones.wf(),
        zones.zone_of(entity) is None,
    ensures
        zones.with_added(entity, zone, position).without(entity) == zones,
{
    let added = zones.with_added(entity, zone, position);
    let back = added.without(entity);
    assert(back.locations =~= zones.locations);
    if zones.is_ordered(zone) {
        assert(zones.orders[zone.0 as u32].contains(entity) <==> zones.zone_of(entity) == Some(
            ZoneId(zone.0 as u32 as u16),
        ));
        lemma_placed_members(zones.order(zone), entity, position);
    }
    assert(back.orders =~= zones.orders);
}

} // verus!
