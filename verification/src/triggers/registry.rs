//! Triggers and their registry.
//!
//! The registry keeps every trigger under its identifier and, for each
//! event type, the identifiers of the triggers that listen for it, so that
//! an event finds its triggers without a search.

use super::condition::{
    comes_to, decided, ConditionContext, ConditionEvaluator, CustomConditions, TriggerCondition,
};
use super::event::{EventTypeId, GameEvent, GameEventView};
use crate::base::entity::EntityId;
use crate::base::player::PlayerId;
use crate::base::state::{GameState, GameStateView};
use crate::effects::effect::{clone_effects, effect_views, Effect};
use crate::maps::{
    id_map_get, id_map_get_mut, id_map_insert, id_map_keys, id_map_len, id_map_new,
    id_map_remove, IdMap,
};
use vstd::prelude::*;

verus! {

/// Identifier of a trigger.
#[derive(Clone, Copy, Debug, PartialEq, Eq, Hash, Structural)]
pub struct TriggerId(pub u32);

impl TriggerId {
    /// The identifier as text.
    pub fn to_string(&self) -> (text: String)
        ensures
            text@ == "Trigger("@ + crate::base::text::decimal(self.0 as nat) + ")"@,
    {
        crate::base::text::labelled("Trigger(", self.0 as u64, ")")
    }

    /// A trigger identifier.
    pub fn new(id: u32) -> (trigger: Self)
        ensures
            trigger.0 == id,
    {
        TriggerId(id)
    }

    /// The raw number.
    pub fn raw(self) -> (raw: u32)
        ensures
            raw == self.0,
    {
        self.0
    }
}

/// When a trigger fires, relative to its event.
#[derive(Clone, Copy, Debug, PartialEq, Eq, Structural)]
pub enum TriggerTiming {
    /// Before the event takes place.
    Before,
    /// After the event took place.
    After,
    /// In place of the event.
    Instead,
}

impl Default for TriggerTiming {
    fn default() -> (timing: Self)
        ensures
            timing == TriggerTiming::After,
    {
        TriggerTiming::After
    }
}

/// An ability that listens for events and proposes effects.
#[derive(Clone, Debug)]
pub struct Trigger {
    pub id: TriggerId,
    pub name: String,
    /// The entity the ability belongs to.
    pub source: Option<EntityId>,
    /// The player who controls the ability.
    pub controller: Option<PlayerId>,
    /// The kinds of event it listens for.
    pub event_types: Vec<EventTypeId>,
    /// What must hold for it to fire.
    pub condition: TriggerCondition,
    pub timing: TriggerTiming,
    /// What it proposes when it fires.
    pub effects: Vec<Effect>,
    pub enabled: bool,
    /// How often it may still fire; without limit where nothing is given.
    pub uses_remaining: Option<u32>,
    /// Triggers of higher priority come first.
    pub priority: i32,
}

impl Trigger {
    /// Whether the trigger is enabled and has a use left.
    pub open spec fn fires(&self) -> bool {
        self.enabled && (self.uses_remaining matches Some(uses) ==> uses > 0)
    }

    /// A trigger on one kind of event that always fires after it, without
    /// effects, enabled, without a limit of uses, of priority 0.
    pub fn new(id: TriggerId, name: &str, event_type: EventTypeId) -> (trigger: Self)
        ensures
            trigger.id == id,
            trigger.name@ == name@,
            trigger.source is None,
            trigger.controller is None,
            trigger.event_types@ == seq![event_type],
            trigger.condition == TriggerCondition::Always,
            trigger.timing == TriggerTiming::After,
            trigger.effects@.len() == 0,
            trigger.enabled,
            trigger.uses_remaining is None,
            trigger.priority == 0,
    {
        let mut event_types: Vec<EventTypeId> = Vec::new();
        event_types.push(event_type);
        assert(event_types@ =~= seq![event_type]);
        Trigger {
            id,
            name: name.to_owned(),
            source: None,
            controller: None,
            event_types,
            condition: TriggerCondition::Always,
            timing: TriggerTiming::After,
            effects: Vec::new(),
            enabled: true,
            uses_remaining: None,
            priority: 0,
        }
    }

    /// The same trigger, belonging to an entity.
    pub fn with_source(self, source: EntityId) -> (trigger: Self)
        ensures
            trigger == (Trigger { source: Some(source), ..self }),
    {
        let mut trigger = self;
        trigger.source = Some(source);
        trigger
    }

    /// The same trigger, controlled by a player.
    pub fn with_controller(self, controller: PlayerId) -> (trigger: Self)
        ensures
            trigger == (Trigger { controller: Some(controller), ..self }),
    {
        let mut trigger = self;
        trigger.controller = Some(controller);
        trigger
    }

    /// The same trigger, listening for one more kind of event unless it
    /// does already.
    pub fn also_on(self, event_type: EventTypeId) -> (trigger: Self)
        ensures
            trigger.event_types@ == (if self.event_types@.contains(event_type) {
                self.event_types@
            } else {
                self.event_types@.push(event_type)
            }),
            trigger.id == self.id,
            trigger.name == self.name,
            trigger.source == self.source,
            trigger.controller == self.controller,
            trigger.condition == self.condition,
            trigger.timing == self.timing,
            trigger.effects == self.effects,
            trigger.enabled == self.enabled,
            trigger.uses_remaining == self.uses_remaining,
            trigger.priority == self.priority,
    {
        let mut trigger = self;
        let mut next: usize = 0;
        let mut found = false;
        while next < trigger.event_types.len() && !found
            invariant
                next <= trigger.event_types@.len(),
                trigger == self,
                found ==> trigger.event_types@.contains(event_type),
                !found ==> forall|i: int| 0 <= i < next ==> trigger.event_types@[i] != event_type,
            decreases trigger.event_types@.len() - next + (if found { 0int } else { 1int }),
        {
            if trigger.event_types[next] == event_type {
                found = true;
            } else {
                next = next + 1;
            }
        }
        if !found {
            trigger.event_types.push(event_type);
        }
        trigger
    }

    /// The same trigger with another condition.
    pub fn with_condition(self, condition: TriggerCondition) -> (trigger: Self)
        ensures
            trigger == (Trigger { condition, ..self }),
    {
        let mut trigger = self;
        trigger.condition = condition;
        trigger
    }

    /// The same trigger with another timing.
    pub fn with_timing(self, timing: TriggerTiming) -> (trigger: Self)
        ensures
            trigger == (Trigger { timing, ..self }),
    {
        let mut trigger = self;
        trigger.timing = timing;
        trigger
    }

    /// The same trigger with one more effect, proposed last.
    pub fn with_effect(self, effect: Effect) -> (trigger: Self)
        ensures
            trigger.effects@ == self.effects@.push(effect),
            trigger.id == self.id,
            trigger.name == self.name,
            trigger.source == self.source,
            trigger.controller == self.controller,
            trigger.event_types == self.event_types,
            trigger.condition == self.condition,
            trigger.timing == self.timing,
            trigger.enabled == self.enabled,
            trigger.uses_remaining == self.uses_remaining,
            trigger.priority == self.priority,
    {
        let mut trigger = self;
        trigger.effects.push(effect);
        trigger
    }

    /// The same trigger, firing at most `uses` times.
    pub fn with_uses(self, uses: u32) -> (trigger: Self)
        ensures
            trigger == (Trigger { uses_remaining: Some(uses), ..self }),
    {
        let mut trigger = self;
        trigger.uses_remaining = Some(uses);
        trigger
    }

    /// The same trigger with another priority.
    pub fn with_priority(self, priority: i32) -> (trigger: Self)
        ensures
            trigger == (Trigger { priority, ..self }),
    {
        let mut trigger = self;
        trigger.priority = priority;
        trigger
    }

    /// Whether the trigger is enabled and has a use left.
    pub fn can_fire(&self) -> (can: bool)
        ensures
            can == self.fires(),
    {
        self.enabled && match self.uses_remaining {
            Some(uses) => uses > 0,
            None => true,
        }
    }

    /// Spends one use, if the uses are limited and one is left.
    pub fn use_trigger(&mut self)
        ensures
            *final(self) == (Trigger {
                uses_remaining: match old(self).uses_remaining {
                    Some(uses) => Some(
                        if uses > 0 {
                            (uses - 1) as u32
                        } else {
                            0u32
                        },
                    ),
                    None => None,
                },
                ..*old(self)
            }),
    {
        match self.uses_remaining {
            Some(uses) => {
                self.uses_remaining = Some(if uses > 0 {
                    uses - 1
                } else {
                    0
                });
            },
            None => {},
        }
    }
}

/// What a trigger that fired proposes.
#[derive(Clone, Debug)]
pub struct TriggeredEffect {
    pub trigger_id: TriggerId,
    pub controller: Option<PlayerId>,
    pub source: Option<EntityId>,
    pub effects: Vec<Effect>,
    pub triggering_event: GameEvent,
    pub timing: TriggerTiming,
}

/// The identifiers listed under an event type; none where nothing is.
pub open spec fn bucket_of(buckets: Map<u32, Seq<TriggerId>>, event_type: EventTypeId) -> Seq<
    TriggerId,
> {
    if buckets.contains_key(event_type.0) {
        buckets[event_type.0]
    } else {
        Seq::empty()
    }
}

/// Every identifier but one.
pub open spec fn not_trigger(id: TriggerId) -> spec_fn(TriggerId) -> bool {
    |other: TriggerId| other != id
}

/// Every identifier but the given ones.
pub open spec fn not_among(ids: Seq<u32>) -> spec_fn(TriggerId) -> bool {
    |other: TriggerId| !ids.contains(other.0)
}

/// The index after a trigger is listed under the first `done` of the
/// given event types, last in each list.
pub open spec fn indexed(
    buckets: Map<u32, Seq<TriggerId>>,
    types: Seq<EventTypeId>,
    done: int,
    id: TriggerId,
) -> Map<u32, Seq<TriggerId>>
    decreases done,
{
    if done <= 0 {
        buckets
    } else {
        let before = indexed(buckets, types, done - 1, id);
        before.insert(types[done - 1].0, bucket_of(before, types[done - 1]).push(id))
    }
}

/// The index after a trigger is taken out of the lists of the first `done`
/// of the given event types; a list that is left empty is dropped.
pub open spec fn unindexed(
    buckets: Map<u32, Seq<TriggerId>>,
    types: Seq<EventTypeId>,
    done: int,
    id: TriggerId,
) -> Map<u32, Seq<TriggerId>>
    decreases done,
{
    if done <= 0 {
        buckets
    } else {
        let before = unindexed(buckets, types, done - 1, id);
        let event_type = types[done - 1];
        if before.contains_key(event_type.0) {
            let kept = before[event_type.0].filter(not_trigger(id));
            if kept.len() == 0 {
                before.remove(event_type.0)
            } else {
                before.insert(event_type.0, kept)
            }
        } else {
            before
        }
    }
}

/// The registry as plain values.
pub struct RegistryView {
    /// The triggers, by their raw identifier.
    pub triggers: Map<u32, Trigger>,
    /// For each raw event type, the triggers that listen for it.
    pub buckets: Map<u32, Seq<TriggerId>>,
    /// The identifier that is assigned next.
    pub next_id: u32,
}

impl RegistryView {
    /// Every trigger is stored under its own identifier, and every
    /// identifier listed under an event type is that of a stored trigger
    /// that listens for the event type.
    pub open spec fn wf(self) -> bool {
        &&& self.triggers.dom().finite()
        &&& self.buckets.dom().finite()
        &&& forall|id: u32| #[trigger] self.triggers.contains_key(id) ==> self.triggers[id].id.0 == id
        &&& forall|event_type: u32, i: int|
            self.buckets.contains_key(event_type) && 0 <= i < self.buckets[event_type].len() ==> {
                let id = #[trigger] self.buckets[event_type][i];
                self.triggers.contains_key(id.0)
                    && self.triggers[id.0].event_types@.contains(EventTypeId(event_type))
            }
    }

    /// The identifiers of the triggers that do not belong to an entity.
    pub open spec fn not_of(self, source: EntityId) -> spec_fn(TriggerId) -> bool {
        |id: TriggerId| self.triggers[id.0].source != Some(source)
    }

    /// Whether an identifier is listed under any event type.
    pub open spec fn lists(self, id: TriggerId) -> bool {
        exists|event_type: u32, i: int|
            self.buckets.contains_key(event_type) && 0 <= i < self.buckets[event_type].len()
                && #[trigger] self.buckets[event_type][i] == id
    }
}

/// The lists of a map of vectors.
pub open spec fn bucket_seqs(buckets: Map<u32, Vec<TriggerId>>) -> Map<u32, Seq<TriggerId>> {
    Map::new(|event_type: u32| buckets.contains_key(event_type), |event_type: u32| buckets[event_type]@)
}

/// Every trigger of a game, by identifier and by event type.
#[derive(Clone, Debug)]
pub struct TriggerRegistry {
    triggers: IdMap<Trigger>,
    by_event_type: IdMap<Vec<TriggerId>>,
    next_id: u32,
}

impl View for TriggerRegistry {
    type V = RegistryView;

    closed spec fn view(&self) -> RegistryView {
        RegistryView {
            triggers: self.triggers@,
            buckets: bucket_seqs(self.by_event_type@),
            next_id: self.next_id,
        }
    }
}

/// Takes every occurrence of an identifier out of a list.
fn drop_trigger(list: &mut Vec<TriggerId>, id: TriggerId)
    ensures
        final(list)@ == old(list)@.filter(not_trigger(id)),
{
    let mut kept: Vec<TriggerId> = Vec::new();
    let mut next: usize = 0;
    proof {
        reveal(Seq::filter);
        assert(list@.take(0) =~= Seq::<TriggerId>::empty());
    }
    while next < list.len()
        invariant
            next <= list@.len(),
            list@ == old(list)@,
            kept@ == list@.take(next as int).filter(not_trigger(id)),
        decreases list@.len() - next,
    {
        let current = list[next];
        proof {
            assert(list@.take(next as int + 1) =~= list@.take(next as int).push(current));
            list@.take(next as int).lemma_filter_push(current, not_trigger(id));
        }
        if current != id {
            kept.push(current);
        }
        next = next + 1;
    }
    proof {
        assert(list@.take(list@.len() as int) =~= list@);
    }
    *list = kept;
}

impl TriggerRegistry {
    /// A registry without triggers.
    pub fn new() -> (registry: Self)
        ensures
            registry@ == (RegistryView {
                triggers: Map::empty(),
                buckets: Map::empty(),
                next_id: 0,
            }),
            registry@.wf(),
    {
        let registry = TriggerRegistry {
            triggers: id_map_new(),
            by_event_type: id_map_new(),
            next_id: 0,
        };
        assert(registry@.buckets =~= Map::<u32, Seq<TriggerId>>::empty());
        registry
    }

    /// Lists a trigger under each of the given event types.
    fn index_trigger(&mut self, types: &Vec<EventTypeId>, id: TriggerId)
        ensures
            final(self)@ == (RegistryView {
                buckets: indexed(old(self)@.buckets, types@, types@.len() as int, id),
                ..old(self)@
            }),
    {
        let mut next: usize = 0;
        while next < types.len()
            invariant
                next <= types@.len(),
                self@ == (RegistryView {
                    buckets: indexed(old(self)@.buckets, types@, next as int, id),
                    ..old(self)@
                }),
            decreases types@.len() - next,
        {
            let event_type = types[next];
            let ghost before = self@.buckets;
            let mut listed = false;
            match id_map_get_mut(&mut self.by_event_type, event_type.0) {
                Some(list) => {
                    list.push(id);
                    listed = true;
                },
                None => {},
            }
            if !listed {
                let mut list: Vec<TriggerId> = Vec::new();
                list.push(id);
                let _ = id_map_insert(&mut self.by_event_type, event_type.0, list);
            }
            proof {
                assert(self@.buckets =~= before.insert(
                    event_type.0,
                    bucket_of(before, event_type).push(id),
                ));
            }
            next = next + 1;
        }
    }

    /// Takes a trigger out of the list of each of the given event types.
    fn unindex_trigger(&mut self, types: &Vec<EventTypeId>, id: TriggerId)
        ensures
            final(self)@ == (RegistryView {
                buckets: unindexed(old(self)@.buckets, types@, types@.len() as int, id),
                ..old(self)@
            }),
    {
        let mut next: usize = 0;
        while next < types.len()
            invariant
                next <= types@.len(),
                self@ == (RegistryView {
                    buckets: unindexed(old(self)@.buckets, types@, next as int, id),
                    ..old(self)@
                }),
            decreases types@.len() - next,
        {
            let event_type = types[next];
            let ghost before = self@.buckets;
            let mut emptied = false;
            match id_map_get_mut(&mut self.by_event_type, event_type.0) {
                Some(list) => {
                    drop_trigger(list, id);
                    emptied = list.len() == 0;
                },
                None => {},
            }
            if emptied {
                let _ = id_map_remove(&mut self.by_event_type, event_type.0);
            }
            proof {
                if before.contains_key(event_type.0) {
                    let kept = before[event_type.0].filter(not_trigger(id));
                    if kept.len() == 0 {
                        assert(self@.buckets =~= before.remove(event_type.0));
                    } else {
                        assert(self@.buckets =~= before.insert(event_type.0, kept));
                    }
                } else {
                    assert(self@.buckets =~= before);
                }
            }
            next = next + 1;
        }
    }

    /// Stores a trigger and lists it under its event types. A trigger
    /// whose identifier is 0 gets the next identifier of the registry's
    /// own counter. A trigger stored under the same identifier before is
    /// replaced, and stays listed where it was.
    pub fn register(&mut self, trigger: Trigger) -> (id: TriggerId)
        requires
            trigger.id.0 == 0 ==> old(self)@.next_id < u32::MAX,
        ensures
            id == (if trigger.id.0 == 0 {
                TriggerId(old(self)@.next_id)
            } else {
                trigger.id
            }),
            final(self)@ == (RegistryView {
                triggers: old(self)@.triggers.insert(id.0, Trigger { id, ..trigger }),
                buckets: indexed(
                    old(self)@.buckets,
                    trigger.event_types@,
                    trigger.event_types@.len() as int,
                    id,
                ),
                next_id: if trigger.id.0 == 0 {
                    (old(self)@.next_id + 1) as u32
                } else {
                    old(self)@.next_id
                },
            }),
            old(self)@.wf() && !old(self)@.triggers.contains_key(id.0) ==> final(self)@.wf(),
    {
        let mut trigger = trigger;
        if trigger.id.0 == 0 {
            trigger.id = TriggerId::new(self.next_id);
            self.next_id = self.next_id + 1;
        }
        let id = trigger.id;
        self.index_trigger(&trigger.event_types, id);
        proof {
            if old(self)@.wf() && !old(self)@.triggers.contains_key(id.0) {
                lemma_indexed_wf(old(self)@, trigger, trigger.event_types@.len() as int);
            }
        }
        let _ = id_map_insert(&mut self.triggers, id.0, trigger);
        id
    }

    /// Stores a trigger under the identifier it has and lists it under its
    /// event types. The registry's counter moves past the identifier.
    pub fn register_with_id(&mut self, trigger: Trigger) -> (id: TriggerId)
        requires
            trigger.id.0 < u32::MAX,
        ensures
            id == trigger.id,
            final(self)@ == (RegistryView {
                triggers: old(self)@.triggers.insert(id.0, trigger),
                buckets: indexed(
                    old(self)@.buckets,
                    trigger.event_types@,
                    trigger.event_types@.len() as int,
                    id,
                ),
                next_id: if id.0 >= old(self)@.next_id {
                    (id.0 + 1) as u32
                } else {
                    old(self)@.next_id
                },
            }),
            old(self)@.wf() && !old(self)@.triggers.contains_key(id.0) ==> final(self)@.wf(),
    {
        let id = trigger.id;
        if id.0 >= self.next_id {
            self.next_id = id.0 + 1;
        }
        self.index_trigger(&trigger.event_types, id);
        proof {
            if old(self)@.wf() && !old(self)@.triggers.contains_key(id.0) {
                lemma_indexed_wf(old(self)@, trigger, trigger.event_types@.len() as int);
            }
        }
        let _ = id_map_insert(&mut self.triggers, id.0, trigger);
        id
    }

    /// Takes a trigger out of the registry and out of the lists of its
    /// event types, and gives it; nothing happens where there is none.
    pub fn unregister(&mut self, id: TriggerId) -> (removed: Option<Trigger>)
        ensures
            removed == (if old(self)@.triggers.contains_key(id.0) {
                Some(old(self)@.triggers[id.0])
            } else {
                None
            }),
            final(self)@ == (match removed {
                Some(trigger) => RegistryView {
                    triggers: old(self)@.triggers.remove(id.0),
                    buckets: unindexed(
                        old(self)@.buckets,
                        trigger.event_types@,
                        trigger.event_types@.len() as int,
                        id,
                    ),
                    next_id: old(self)@.next_id,
                },
                None => old(self)@,
            }),
            old(self)@.wf() ==> final(self)@.wf() && !final(self)@.lists(id),
    {
        match id_map_remove(&mut self.triggers, id.0) {
            Some(trigger) => {
                self.unindex_trigger(&trigger.event_types, id);
                proof {
                    if old(self)@.wf() {
                        lemma_unindexed_wf(old(self)@, id);
                    }
                }
                Some(trigger)
            },
            None => {
                proof {
                    assert(self@.triggers =~= old(self)@.triggers);
                    if old(self)@.wf() {
                        lemma_unlisted(old(self)@, id);
                    }
                }
                None
            },
        }
    }

    /// The trigger stored under an identifier, if any.
    pub fn get(&self, id: TriggerId) -> (trigger: Option<&Trigger>)
        ensures
            trigger == (if self@.triggers.contains_key(id.0) {
                Some(&self@.triggers[id.0])
            } else {
                None
            }),
    {
        id_map_get(&self.triggers, id.0)
    }

    /// The trigger stored under an identifier, if any, to change in place.
    /// Nothing else changes.
    pub fn get_mut(&mut self, id: TriggerId) -> (trigger: Option<&mut Trigger>)
        ensures
            trigger is Some == old(self)@.triggers.contains_key(id.0),
            trigger matches Some(found) ==> *found == old(self)@.triggers[id.0] && final(self)@
                == (RegistryView {
                triggers: old(self)@.triggers.insert(id.0, *final(found)),
                ..old(self)@
            }),
            trigger is None ==> final(self)@ == old(self)@,
    {
        id_map_get_mut(&mut self.triggers, id.0)
    }

    /// Enables or disables a trigger; nothing happens where there is none.
    pub fn set_enabled(&mut self, id: TriggerId, enabled: bool)
        ensures
            final(self)@ == (if old(self)@.triggers.contains_key(id.0) {
                RegistryView {
                    triggers: old(self)@.triggers.insert(
                        id.0,
                        Trigger { enabled, ..old(self)@.triggers[id.0] },
                    ),
                    ..old(self)@
                }
            } else {
                old(self)@
            }),
    {
        match id_map_get_mut(&mut self.triggers, id.0) {
            Some(trigger) => {
                trigger.enabled = enabled;
            },
            None => {},
        }
    }

    /// The number of triggers.
    pub fn len(&self) -> (count: usize)
        ensures
            count == self@.triggers.len(),
    {
        id_map_len(&self.triggers)
    }

    /// Whether there is no trigger.
    pub fn is_empty(&self) -> (empty: bool)
        ensures
            empty == (self@.triggers.len() == 0),
    {
        id_map_len(&self.triggers) == 0
    }

    /// The identifiers of the triggers that `wanted` accepts, each once, in
    /// no particular order.
    fn ids_where(&self, wanted: Option<EntityId>, any: bool) -> (ids: Vec<u32>)
        ensures
            ids@.no_duplicates(),
            forall|id: u32| #[trigger]
                ids@.contains(id) <==> self@.triggers.contains_key(id) && (any
                    || self@.triggers[id].source == wanted),
    {
        let keys = id_map_keys(&self.triggers);
        let mut ids: Vec<u32> = Vec::new();
        let mut next: usize = 0;
        while next < keys.len()
            invariant
                next <= keys@.len(),
                keys@.no_duplicates(),
                forall|key: u32| #[trigger] keys@.contains(key) <==> self.triggers@.contains_key(key),
                ids@.no_duplicates(),
                forall|id: u32| #[trigger]
                    ids@.contains(id) <==> (any || self.triggers@[id].source == wanted)
                        && exists|k: int| 0 <= k < next && keys@[k] == id,
            decreases keys@.len() - next,
        {
            let key = keys[next];
            let ghost before = ids@;
            assert(keys@.contains(key));
            let keep = any || match id_map_get(&self.triggers, key) {
                Some(trigger) => same_source(trigger.source, wanted),
                None => false,
            };
            if keep {
                ids.push(key);
                proof {
                    assert(!before.contains(key)) by {
                        if before.contains(key) {
                            let k = choose|k: int| 0 <= k < next && keys@[k] == key;
                            assert(keys@[k] == keys@[next as int]);
                        }
                    }
                    assert forall|i: int, j: int|
                        0 <= i < ids@.len() && 0 <= j < ids@.len() && i != j implies ids@[i]
                        != ids@[j] by {
                        if i < before.len() {
                            assert(before.contains(before[i]));
                        }
                        if j < before.len() {
                            assert(before.contains(before[j]));
                        }
                    }
                }
            }
            proof {
                assert forall|id: u32| #[trigger]
                    ids@.contains(id) <==> (any || self.triggers@[id].source == wanted)
                        && exists|k: int| 0 <= k < next + 1 && keys@[k] == id by {
                    if ids@.contains(id) {
                        let i = choose|i: int| 0 <= i < ids@.len() && ids@[i] == id;
                        if i < before.len() {
                            assert(before.contains(id));
                            let k = choose|k: int| 0 <= k < next && keys@[k] == id;
                            assert(0 <= k < next + 1 && keys@[k] == id);
                        } else {
                            assert(keys@[next as int] == id);
                        }
                    }
                    if (any || self.triggers@[id].source == wanted) && exists|k: int|
                        0 <= k < next + 1 && keys@[k] == id {
                        let k = choose|k: int| 0 <= k < next + 1 && keys@[k] == id;
                        if k < next {
                            assert(before.contains(id));
                            let i = choose|i: int| 0 <= i < before.len() && before[i] == id;
                            assert(ids@[i] == id);
                        } else {
                            assert(ids@[ids@.len() - 1] == id);
                        }
                    }
                }
            }
            next = next + 1;
        }
        proof {
            assert forall|id: u32| #[trigger]
                ids@.contains(id) <==> self@.triggers.contains_key(id) && (any
                    || self@.triggers[id].source == wanted) by {
                if ids@.contains(id) {
                    let k = choose|k: int| 0 <= k < next && keys@[k] == id;
                    assert(keys@.contains(keys@[k]));
                }
                if self@.triggers.contains_key(id) {
                    assert(keys@.contains(id));
                    let k = choose|k: int| 0 <= k < keys@.len() && keys@[k] == id;
                    assert(0 <= k < next && keys@[k] == id);
                }
            }
        }
        ids
    }

    /// The triggers stored under the given identifiers, in their order.
    fn triggers_of(&self, ids: &Vec<u32>) -> (triggers: Vec<&Trigger>)
        requires
            forall|i: int| 0 <= i < ids@.len() ==> self@.triggers.contains_key(#[trigger] ids@[i]),
        ensures
            triggers@.len() == ids@.len(),
            forall|i: int|
                0 <= i < ids@.len() ==> *(#[trigger] triggers@[i]) == self@.triggers[ids@[i]],
    {
        let mut triggers: Vec<&Trigger> = Vec::new();
        let mut next: usize = 0;
        while next < ids.len()
            invariant
                next <= ids@.len(),
                triggers@.len() == next,
                forall|i: int|
                    0 <= i < ids@.len() ==> self.triggers@.contains_key(#[trigger] ids@[i]),
                forall|i: int|
                    0 <= i < next ==> *(#[trigger] triggers@[i]) == self.triggers@[ids@[i]],
            decreases ids@.len() - next,
        {
            assert(self.triggers@.contains_key(ids@[next as int]));
            match id_map_get(&self.triggers, ids[next]) {
                Some(trigger) => {
                    triggers.push(trigger);
                },
                None => {},
            }
            next = next + 1;
        }
        triggers
    }

    /// Every trigger, each once, in no particular order.
    pub fn iter(&self) -> (triggers: Vec<&Trigger>)
        ensures
            listed_triggers(self@, triggers@, |trigger: Trigger| true),
    {
        let ids = self.ids_where(None, true);
        proof {
            assert forall|i: int| 0 <= i < ids@.len() implies self@.triggers.contains_key(
                #[trigger] ids@[i],
            ) by {
                assert(ids@.contains(ids@[i]));
            }
        }
        let triggers = self.triggers_of(&ids);
        proof {
            lemma_listed_triggers(self@, ids@, triggers@, |trigger: Trigger| true);
        }
        triggers
    }

    /// The triggers that belong to an entity, each once, in no particular
    /// order.
    pub fn triggers_for_source(&self, source: EntityId) -> (triggers: Vec<&Trigger>)
        ensures
            listed_triggers(
                self@,
                triggers@,
                |trigger: Trigger| trigger.source == Some(source),
            ),
    {
        let ids = self.ids_where(Some(source), false);
        proof {
            assert forall|i: int| 0 <= i < ids@.len() implies self@.triggers.contains_key(
                #[trigger] ids@[i],
            ) by {
                assert(ids@.contains(ids@[i]));
            }
        }
        let triggers = self.triggers_of(&ids);
        proof {
            lemma_listed_triggers(
                self@,
                ids@,
                triggers@,
                |trigger: Trigger| trigger.source == Some(source),
            );
        }
        triggers
    }

    /// Takes every trigger that belongs to an entity out of the registry.
    /// Afterwards no trigger of the entity is stored, and none is listed
    /// under any event type; the other triggers are listed as before, in
    /// the same order.
    pub fn remove_for_source(&mut self, source: EntityId)
        requires
            old(self)@.wf(),
        ensures
            final(self)@.wf(),
            final(self)@.next_id == old(self)@.next_id,
            forall|id: u32| #[trigger]
                final(self)@.triggers.contains_key(id) <==> old(self)@.triggers.contains_key(id)
                    && old(self)@.triggers[id].source != Some(source),
            forall|id: u32| #[trigger]
                final(self)@.triggers.contains_key(id) ==> final(self)@.triggers[id] == old(
                    self,
                )@.triggers[id],
            forall|id: TriggerId|
                old(self)@.triggers.contains_key(id.0) && old(self)@.triggers[id.0].source
                    == Some(source) ==> !#[trigger] final(self)@.lists(id),
            forall|event_type: EventTypeId| #[trigger]
                bucket_of(final(self)@.buckets, event_type) == bucket_of(
                    old(self)@.buckets,
                    event_type,
                ).filter(old(self)@.not_of(source)),
    {
        let to_remove = self.ids_where(Some(source), false);
        proof {
            assert(to_remove@.take(0) =~= Seq::<u32>::empty());
            assert forall|event_type: EventTypeId| #[trigger]
                bucket_of(self@.buckets, event_type) == bucket_of(
                    old(self)@.buckets,
                    event_type,
                ).filter(not_among(to_remove@.take(0))) by {
                lemma_filter_keeps_all(
                    bucket_of(self@.buckets, event_type),
                    not_among(to_remove@.take(0)),
                );
            }
        }
        let mut next: usize = 0;
        while next < to_remove.len()
            invariant
                next <= to_remove@.len(),
                self@.wf(),
                self@.next_id == old(self)@.next_id,
                to_remove@.no_duplicates(),
                forall|id: u32| #[trigger]
                    to_remove@.contains(id) <==> old(self)@.triggers.contains_key(id) && old(
                        self,
                    )@.triggers[id].source == Some(source),
                forall|id: u32| #[trigger]
                    self@.triggers.contains_key(id) <==> old(self)@.triggers.contains_key(id)
                        && !(exists|k: int| 0 <= k < next && to_remove@[k] == id),
                forall|id: u32| #[trigger]
                    self@.triggers.contains_key(id) ==> self@.triggers[id] == old(
                        self,
                    )@.triggers[id],
                forall|k: int| 0 <= k < next ==> !self@.lists(TriggerId(#[trigger] to_remove@[k])),
                forall|event_type: EventTypeId| #[trigger]
                    bucket_of(self@.buckets, event_type) == bucket_of(
                        old(self)@.buckets,
                        event_type,
                    ).filter(not_among(to_remove@.take(next as int))),
            decreases to_remove@.len() - next,
        {
            let id = to_remove[next];
            let ghost before = self@;
            proof {
                assert(to_remove@.contains(id));
                if exists|k: int| 0 <= k < next && to_remove@[k] == id {
                    let k = choose|k: int| 0 <= k < next && to_remove@[k] == id;
                    assert(to_remove@[k] == to_remove@[next as int]);
                }
                assert(before.triggers.contains_key(id));
            }
            let _ = self.unregister(TriggerId(id));
            proof {
                let earlier = to_remove@.take(next as int);
                let later = to_remove@.take(next as int + 1);
                assert(later =~= earlier.push(id));
                assert forall|other: TriggerId| #[trigger]
                    not_among(later)(other) == (not_among(earlier)(other) && not_trigger(
                        TriggerId(id),
                    )(other)) by {
                    if later.contains(other.0) {
                        let k = choose|k: int| 0 <= k < later.len() && later[k] == other.0;
                        if k < next {
                            assert(earlier[k] == other.0);
                        }
                    }
                    if earlier.contains(other.0) {
                        let k = choose|k: int| 0 <= k < earlier.len() && earlier[k] == other.0;
                        assert(later[k] == other.0);
                    }
                    if other.0 == id {
                        assert(later[next as int] == other.0);
                    }
                }
                assert forall|event_type: EventTypeId| #[trigger]
                    bucket_of(self@.buckets, event_type) == bucket_of(
                        old(self)@.buckets,
                        event_type,
                    ).filter(not_among(later)) by {
                    lemma_unregistered_bucket(before, TriggerId(id), event_type);
                    lemma_filter_both(
                        bucket_of(old(self)@.buckets, event_type),
                        not_among(earlier),
                        not_trigger(TriggerId(id)),
                        not_among(later),
                    );
                }
                assert forall|k: int| 0 <= k < next + 1 implies !self@.lists(
                    TriggerId(#[trigger] to_remove@[k]),
                ) by {
                    if k < next {
                        lemma_unindexed_keeps_unlisted(
                            before,
                            TriggerId(id),
                            TriggerId(to_remove@[k]),
                        );
                    }
                }
                assert forall|other: u32| #[trigger]
                    self@.triggers.contains_key(other) <==> old(self)@.triggers.contains_key(other)
                        && !(exists|k: int| 0 <= k < next + 1 && to_remove@[k] == other) by {
                    if exists|k: int| 0 <= k < next + 1 && to_remove@[k] == other {
                        let k = choose|k: int| 0 <= k < next + 1 && to_remove@[k] == other;
                        if k < next {
                            assert(0 <= k < next && to_remove@[k] == other);
                        }
                    }
                    if exists|k: int| 0 <= k < next && to_remove@[k] == other {
                        let k = choose|k: int| 0 <= k < next && to_remove@[k] == other;
                        assert(0 <= k < next + 1 && to_remove@[k] == other);
                    }
                }
            }
            next = next + 1;
        }
        proof {
            assert(to_remove@.take(to_remove@.len() as int) =~= to_remove@);
            assert forall|event_type: EventTypeId| #[trigger]
                bucket_of(self@.buckets, event_type) == bucket_of(
                    old(self)@.buckets,
                    event_type,
                ).filter(old(self)@.not_of(source)) by {
                let listed = bucket_of(old(self)@.buckets, event_type);
                assert forall|i: int| 0 <= i < listed.len() implies not_among(to_remove@)(
                    #[trigger] listed[i],
                ) == old(self)@.not_of(source)(listed[i]) by {
                    assert(old(self)@.buckets[event_type.0][i] == listed[i]);
                    assert(old(self)@.triggers.contains_key(listed[i].0));
                }
                lemma_filter_agree(listed, not_among(to_remove@), old(self)@.not_of(source));
            }
            assert forall|id: u32| #[trigger]
                self@.triggers.contains_key(id) <==> old(self)@.triggers.contains_key(id) && old(
                    self,
                )@.triggers[id].source != Some(source) by {
                if old(self)@.triggers.contains_key(id) && old(self)@.triggers[id].source == Some(
                    source,
                ) {
                    assert(to_remove@.contains(id));
                    let k = choose|k: int| 0 <= k < to_remove@.len() && to_remove@[k] == id;
                    assert(0 <= k < next && to_remove@[k] == id);
                }
                if exists|k: int| 0 <= k < next && to_remove@[k] == id {
                    let k = choose|k: int| 0 <= k < next && to_remove@[k] == id;
                    assert(to_remove@.contains(to_remove@[k]));
                }
            }
            assert forall|id: TriggerId|
                old(self)@.triggers.contains_key(id.0) && old(self)@.triggers[id.0].source
                    == Some(source) implies !#[trigger] self@.lists(id) by {
                assert(to_remove@.contains(id.0));
                let k = choose|k: int| 0 <= k < to_remove@.len() && to_remove@[k] == id.0;
                assert(!self@.lists(TriggerId(to_remove@[k])));
            }
        }
    }
}

impl Default for TriggerRegistry {
    fn default() -> (registry: Self)
        ensures
            registry@.wf(),
    {
        TriggerRegistry::new()
    }
}

/// Whether two optional entities are the same.
fn same_source(left: Option<EntityId>, right: Option<EntityId>) -> (same: bool)
    ensures
        same == (left == right),
{
    match left {
        Some(a) => match right {
            Some(b) => a == b,
            None => false,
        },
        None => right.is_none(),
    }
}

/// `triggers` holds exactly the wanted triggers of a registry, each once.
pub open spec fn listed_triggers(
    registry: RegistryView,
    triggers: Seq<&Trigger>,
    wanted: spec_fn(Trigger) -> bool,
) -> bool {
    exists|ids: Seq<u32>|
        {
            &&& #[trigger] ids.no_duplicates()
            &&& ids.len() == triggers.len()
            &&& forall|i: int|
                0 <= i < ids.len() ==> registry.triggers.contains_key(#[trigger] ids[i])
                    && *triggers[i] == registry.triggers[ids[i]] && wanted(*triggers[i])
            &&& forall|id: u32|
                registry.triggers.contains_key(id) && wanted(registry.triggers[id])
                    ==> #[trigger] ids.contains(id)
        }
}

/// The triggers under a complete list of wanted identifiers are the wanted
/// triggers.
pub proof fn lemma_listed_triggers(
    registry: RegistryView,
    ids: Seq<u32>,
    triggers: Seq<&Trigger>,
    wanted: spec_fn(Trigger) -> bool,
)
    requires
        ids.no_duplicates(),
        ids.len() == triggers.len(),
        forall|id: u32| #[trigger]
            ids.contains(id) <==> registry.triggers.contains_key(id) && wanted(
                registry.triggers[id],
            ),
        forall|i: int| 0 <= i < ids.len() ==> *(#[trigger] triggers[i]) == registry.triggers[ids[i]],
    ensures
        listed_triggers(registry, triggers, wanted),
{
    assert forall|i: int| 0 <= i < ids.len() implies registry.triggers.contains_key(
        #[trigger] ids[i],
    ) && *triggers[i] == registry.triggers[ids[i]] && wanted(*triggers[i]) by {
        assert(ids.contains(ids[i]));
    }
    assert(ids.no_duplicates());
}

/// Listing a new trigger under its event types keeps the registry well
/// formed, once the trigger is stored.
pub proof fn lemma_indexed_wf(registry: RegistryView, trigger: Trigger, done: int)
    requires
        registry.wf(),
        !registry.triggers.contains_key(trigger.id.0),
        0 <= done <= trigger.event_types@.len(),
    ensures
        (RegistryView {
            triggers: registry.triggers.insert(trigger.id.0, trigger),
            buckets: indexed(registry.buckets, trigger.event_types@, done, trigger.id),
            next_id: registry.next_id,
        }).wf(),
    decreases done,
{
    let types = trigger.event_types@;
    let after = RegistryView {
        triggers: registry.triggers.insert(trigger.id.0, trigger),
        buckets: indexed(registry.buckets, types, done, trigger.id),
        next_id: registry.next_id,
    };
    if done > 0 {
        lemma_indexed_wf(registry, trigger, done - 1);
        let before = RegistryView {
            triggers: registry.triggers.insert(trigger.id.0, trigger),
            buckets: indexed(registry.buckets, types, done - 1, trigger.id),
            next_id: registry.next_id,
        };
        let event_type = types[done - 1];
        assert(types.contains(event_type));
        assert forall|key: u32, i: int|
            after.buckets.contains_key(key) && 0 <= i < after.buckets[key].len() implies {
            let id = #[trigger] after.buckets[key][i];
            after.triggers.contains_key(id.0) && after.triggers[id.0].event_types@.contains(
                EventTypeId(key),
            )
        } by {
            if key == event_type.0 {
                let list = bucket_of(before.buckets, event_type);
                if i < list.len() {
                    assert(after.buckets[key][i] == before.buckets[key][i]);
                }
            } else {
                assert(after.buckets[key][i] == before.buckets[key][i]);
            }
        }
    } else {
        assert forall|key: u32, i: int|
            after.buckets.contains_key(key) && 0 <= i < after.buckets[key].len() implies {
            let id = #[trigger] after.buckets[key][i];
            after.triggers.contains_key(id.0) && after.triggers[id.0].event_types@.contains(
                EventTypeId(key),
            )
        } by {
            let id = registry.buckets[key][i];
            assert(registry.triggers.contains_key(id.0));
        }
    }
}

/// What taking a trigger out of the lists of some event types leaves:
/// every list is the old one without the trigger, if it is the list of one
/// of those event types, and the old one otherwise; and no empty list is
/// left among the former.
pub proof fn lemma_unindexed(
    buckets: Map<u32, Seq<TriggerId>>,
    types: Seq<EventTypeId>,
    done: int,
    id: TriggerId,
)
    requires
        0 <= done <= types.len(),
    ensures
        unindexed(buckets, types, done, id).dom().subset_of(buckets.dom()),
        forall|key: u32| #[trigger]
            unindexed(buckets, types, done, id).contains_key(key) ==> unindexed(
                buckets,
                types,
                done,
                id,
            )[key] == (if types.take(done).contains(EventTypeId(key)) {
                buckets[key].filter(not_trigger(id))
            } else {
                buckets[key]
            }),
        forall|key: u32|
            buckets.contains_key(key) && !types.take(done).contains(EventTypeId(key))
                ==> #[trigger] unindexed(buckets, types, done, id).contains_key(key),
        forall|key: u32|
            buckets.contains_key(key) && !(#[trigger] unindexed(
                buckets,
                types,
                done,
                id,
            ).contains_key(key)) ==> buckets[key].filter(not_trigger(id)).len() == 0,
    decreases done,
{
    let after = unindexed(buckets, types, done, id);
    if done > 0 {
        lemma_unindexed(buckets, types, done - 1, id);
        let before = unindexed(buckets, types, done - 1, id);
        let event_type = types[done - 1];
        assert(types.take(done) =~= types.take(done - 1).push(event_type));
        assert forall|key: u32| types.take(done).contains(EventTypeId(key)) <==> key
            == event_type.0 || types.take(done - 1).contains(EventTypeId(key)) by {
            let longer = types.take(done);
            let shorter = types.take(done - 1);
            if longer.contains(EventTypeId(key)) {
                let i = choose|i: int| 0 <= i < longer.len() && longer[i] == EventTypeId(key);
                if i < done - 1 {
                    assert(shorter[i] == EventTypeId(key));
                }
            }
            if shorter.contains(EventTypeId(key)) {
                let i = choose|i: int| 0 <= i < shorter.len() && shorter[i] == EventTypeId(key);
                assert(longer[i] == EventTypeId(key));
            }
            if key == event_type.0 {
                assert(longer[done - 1] == EventTypeId(key));
            }
        }
        assert forall|key: u32| #[trigger] after.contains_key(key) implies after[key] == (
        if types.take(done).contains(EventTypeId(key)) {
            buckets[key].filter(not_trigger(id))
        } else {
            buckets[key]
        }) by {
            if key == event_type.0 {
                lemma_filter_twice(buckets[key], id);
            }
        }
        assert forall|key: u32| buckets.contains_key(key) && !(#[trigger] after.contains_key(
            key,
        )) implies buckets[key].filter(not_trigger(id)).len() == 0 by {
            if before.contains_key(key) {
                lemma_filter_twice(buckets[key], id);
            }
        }
    } else {
        assert(types.take(0) =~= Seq::<EventTypeId>::empty());
    }
}

/// The list of an event type after a stored trigger is taken out of the
/// lists of its event types is the old list without the trigger.
pub proof fn lemma_unregistered_bucket(
    registry: RegistryView,
    id: TriggerId,
    event_type: EventTypeId,
)
    requires
        registry.wf(),
        registry.triggers.contains_key(id.0),
    ensures
        bucket_of(
            unindexed(
                registry.buckets,
                registry.triggers[id.0].event_types@,
                registry.triggers[id.0].event_types@.len() as int,
                id,
            ),
            event_type,
        ) == bucket_of(registry.buckets, event_type).filter(not_trigger(id)),
{
    let types = registry.triggers[id.0].event_types@;
    let after = unindexed(registry.buckets, types, types.len() as int, id);
    let listed = bucket_of(registry.buckets, event_type);
    lemma_unindexed(registry.buckets, types, types.len() as int, id);
    assert(types.take(types.len() as int) =~= types);
    if !registry.buckets.contains_key(event_type.0) {
        lemma_filter_keeps_all(listed, not_trigger(id));
    } else if !types.contains(event_type) {
        assert forall|i: int| 0 <= i < listed.len() implies not_trigger(id)(
            #[trigger] listed[i],
        ) by {
            assert(registry.buckets[event_type.0][i] == listed[i]);
        }
        lemma_filter_keeps_all(listed, not_trigger(id));
    } else if !after.contains_key(event_type.0) {
        assert(listed.filter(not_trigger(id)) =~= Seq::<TriggerId>::empty());
    }
}

/// A list of which every identifier meets a test is kept whole by it.
pub proof fn lemma_filter_keeps_all(list: Seq<TriggerId>, wanted: spec_fn(TriggerId) -> bool)
    requires
        forall|i: int| 0 <= i < list.len() ==> wanted(#[trigger] list[i]),
    ensures
        list.filter(wanted) == list,
    decreases list.len(),
{
    reveal(Seq::filter);
    if list.len() > 0 {
        let rest = list.drop_last();
        lemma_filter_keeps_all(rest, wanted);
        assert(rest.push(list.last()) =~= list);
        rest.lemma_filter_push(list.last(), wanted);
    } else {
        assert(list.filter(wanted) =~= list);
    }
}

/// Keeping what meets one test and of that what meets another is keeping
/// what meets both.
pub proof fn lemma_filter_both(
    list: Seq<TriggerId>,
    first: spec_fn(TriggerId) -> bool,
    second: spec_fn(TriggerId) -> bool,
    both: spec_fn(TriggerId) -> bool,
)
    requires
        forall|id: TriggerId| #[trigger] both(id) == (first(id) && second(id)),
    ensures
        list.filter(first).filter(second) == list.filter(both),
    decreases list.len(),
{
    reveal(Seq::filter);
    if list.len() > 0 {
        let rest = list.drop_last();
        lemma_filter_both(rest, first, second, both);
        assert(rest.push(list.last()) =~= list);
        rest.lemma_filter_push(list.last(), first);
        rest.lemma_filter_push(list.last(), both);
        if first(list.last()) {
            rest.filter(first).lemma_filter_push(list.last(), second);
        }
    } else {
        assert(list.filter(first).filter(second) =~= list.filter(both));
    }
}

/// Two tests that agree on every identifier of a list keep the same of it.
pub proof fn lemma_filter_agree(
    list: Seq<TriggerId>,
    first: spec_fn(TriggerId) -> bool,
    second: spec_fn(TriggerId) -> bool,
)
    requires
        forall|i: int| 0 <= i < list.len() ==> first(#[trigger] list[i]) == second(list[i]),
    ensures
        list.filter(first) == list.filter(second),
    decreases list.len(),
{
    reveal(Seq::filter);
    if list.len() > 0 {
        let rest = list.drop_last();
        lemma_filter_agree(rest, first, second);
        assert(rest.push(list.last()) =~= list);
        rest.lemma_filter_push(list.last(), first);
        rest.lemma_filter_push(list.last(), second);
    } else {
        assert(list.filter(first) =~= list.filter(second));
    }
}

/// Taking an identifier out of a list twice is taking it out once.
pub proof fn lemma_filter_twice(list: Seq<TriggerId>, id: TriggerId)
    ensures
        list.filter(not_trigger(id)).filter(not_trigger(id)) == list.filter(not_trigger(id)),
    decreases list.len(),
{
    reveal(Seq::filter);
    if list.len() > 0 {
        let rest = list.drop_last();
        lemma_filter_twice(rest, id);
        assert(rest.push(list.last()) =~= list);
        rest.lemma_filter_push(list.last(), not_trigger(id));
        if list.last() != id {
            rest.filter(not_trigger(id)).lemma_filter_push(list.last(), not_trigger(id));
        }
    }
}

/// A list without an identifier holds every other identifier it held.
pub proof fn lemma_filter_trigger_members(list: Seq<TriggerId>, id: TriggerId)
    ensures
        forall|other: TriggerId| #[trigger]
            list.filter(not_trigger(id)).contains(other) <==> other != id && list.contains(other),
{
    let kept = list.filter(not_trigger(id));
    assert forall|other: TriggerId| #[trigger]
        kept.contains(other) <==> other != id && list.contains(other) by {
        if kept.contains(other) {
            list.lemma_filter_contains_rev(not_trigger(id), other);
            let i = choose|i: int| 0 <= i < kept.len() && kept[i] == other;
            list.lemma_filter_pred(not_trigger(id), i);
        }
        if other != id && list.contains(other) {
            let j = choose|j: int| 0 <= j < list.len() && list[j] == other;
            list.lemma_filter_contains(not_trigger(id), j);
        }
    }
}

/// In a well-formed registry an identifier that is not stored is not
/// listed.
pub proof fn lemma_unlisted(registry: RegistryView, id: TriggerId)
    requires
        registry.wf(),
        !registry.triggers.contains_key(id.0),
    ensures
        !registry.lists(id),
{
    if registry.lists(id) {
        let (event_type, i) = choose|event_type: u32, i: int|
            registry.buckets.contains_key(event_type) && 0 <= i < registry.buckets[event_type].len()
                && #[trigger] registry.buckets[event_type][i] == id;
        assert(registry.triggers.contains_key(registry.buckets[event_type][i].0));
    }
}

/// Taking a stored trigger out of a well-formed registry leaves it well
/// formed, and the trigger is listed nowhere.
pub proof fn lemma_unindexed_wf(registry: RegistryView, id: TriggerId)
    requires
        registry.wf(),
        registry.triggers.contains_key(id.0),
    ensures
        (RegistryView {
            triggers: registry.triggers.remove(id.0),
            buckets: unindexed(
                registry.buckets,
                registry.triggers[id.0].event_types@,
                registry.triggers[id.0].event_types@.len() as int,
                id,
            ),
            next_id: registry.next_id,
        }).wf(),
        !(RegistryView {
            triggers: registry.triggers.remove(id.0),
            buckets: unindexed(
                registry.buckets,
                registry.triggers[id.0].event_types@,
                registry.triggers[id.0].event_types@.len() as int,
                id,
            ),
            next_id: registry.next_id,
        }).lists(id),
{
    let types = registry.triggers[id.0].event_types@;
    let after = RegistryView {
        triggers: registry.triggers.remove(id.0),
        buckets: unindexed(registry.buckets, types, types.len() as int, id),
        next_id: registry.next_id,
    };
    lemma_unindexed(registry.buckets, types, types.len() as int, id);
    assert(types.take(types.len() as int) =~= types);
    assert(after.buckets.dom().finite()) by {
        vstd::set_lib::lemma_len_subset(after.buckets.dom(), registry.buckets.dom());
    }
    assert forall|key: u32, i: int|
        after.buckets.contains_key(key) && 0 <= i < after.buckets[key].len() implies {
        let other = #[trigger] after.buckets[key][i];
        other != id && after.triggers.contains_key(other.0)
            && after.triggers[other.0].event_types@.contains(EventTypeId(key))
    } by {
        let other = after.buckets[key][i];
        assert(registry.buckets.contains_key(key));
        let old_list = registry.buckets[key];
        if types.contains(EventTypeId(key)) {
            lemma_filter_trigger_members(old_list, id);
            assert(after.buckets[key].contains(other));
            assert(old_list.contains(other));
            let j = choose|j: int| 0 <= j < old_list.len() && old_list[j] == other;
            assert(registry.buckets[key][j] == other);
        } else {
            assert(registry.buckets[key][i] == other);
            assert(registry.triggers[other.0].event_types@.contains(EventTypeId(key)));
            if other == id {
                assert(types.contains(EventTypeId(key)));
            }
        }
    }
    if after.lists(id) {
        let (event_type, i) = choose|event_type: u32, i: int|
            after.buckets.contains_key(event_type) && 0 <= i < after.buckets[event_type].len()
                && #[trigger] after.buckets[event_type][i] == id;
        assert(after.buckets[event_type][i] != id);
    }
}

/// Taking one trigger out of a well-formed registry does not list
/// another that was listed nowhere.
pub proof fn lemma_unindexed_keeps_unlisted(registry: RegistryView, id: TriggerId, other: TriggerId)
    requires
        registry.wf(),
        !registry.lists(other),
    ensures
        registry.triggers.contains_key(id.0) ==> !(RegistryView {
            triggers: registry.triggers.remove(id.0),
            buckets: unindexed(
                registry.buckets,
                registry.triggers[id.0].event_types@,
                registry.triggers[id.0].event_types@.len() as int,
                id,
            ),
            next_id: registry.next_id,
        }).lists(other),
{
    if registry.triggers.contains_key(id.0) {
        let types = registry.triggers[id.0].event_types@;
        let after = RegistryView {
            triggers: registry.triggers.remove(id.0),
            buckets: unindexed(registry.buckets, types, types.len() as int, id),
            next_id: registry.next_id,
        };
        lemma_unindexed(registry.buckets, types, types.len() as int, id);
        if after.lists(other) {
            let (event_type, i) = choose|event_type: u32, i: int|
                after.buckets.contains_key(event_type) && 0 <= i < after.buckets[event_type].len()
                    && #[trigger] after.buckets[event_type][i] == other;
            assert(registry.buckets.contains_key(event_type));
            let old_list = registry.buckets[event_type];
            assert(after.buckets[event_type].contains(other));
            if types.take(types.len() as int).contains(EventTypeId(event_type)) {
                lemma_filter_trigger_members(old_list, id);
            }
            assert(old_list.contains(other));
            let j = choose|j: int| 0 <= j < old_list.len() && old_list[j] == other;
            assert(registry.buckets[event_type][j] == other);
        }
    }
}

/// Whether a trigger with the first priority and identifier comes no later
/// than one with the second: higher priority first, and among equal
/// priorities the lower identifier.
pub open spec fn key_before(first: (i32, u32), second: (i32, u32)) -> bool {
    first.0 > second.0 || (first.0 == second.0 && first.1 <= second.1)
}

/// Whether priorities and identifiers are in the order in which triggers
/// come.
pub open spec fn in_firing_order(keys: Seq<(i32, u32)>) -> bool {
    forall|i: int, j: int| 0 <= i < j < keys.len() ==> key_before(#[trigger] keys[i], #[trigger] keys[j])
}

impl RegistryView {
    /// Whether a trigger is stored, has the timing, can fire, and has a
    /// condition that the event and the state do not decide against.
    pub open spec fn may_fire(
        self,
        id: TriggerId,
        timing: TriggerTiming,
        event: GameEventView,
        state: GameStateView,
        has_custom: bool,
    ) -> bool {
        &&& self.triggers.contains_key(id.0)
        &&& self.triggers[id.0].timing == timing
        &&& self.triggers[id.0].fires()
        &&& decided(self.triggers[id.0].condition, event, state, has_custom) != Some(false)
    }

    /// Whether a trigger is stored, has the timing, can fire, and has a
    /// condition that the event and the state decide for.
    pub open spec fn must_fire(
        self,
        id: TriggerId,
        timing: TriggerTiming,
        event: GameEventView,
        state: GameStateView,
        has_custom: bool,
    ) -> bool {
        &&& self.triggers.contains_key(id.0)
        &&& self.triggers[id.0].timing == timing
        &&& self.triggers[id.0].fires()
        &&& decided(self.triggers[id.0].condition, event, state, has_custom) == Some(true)
    }

    /// Whether the flags are as the conditions come to in a context: a
    /// marked trigger is stored, has the timing, can fire, and its
    /// condition comes to hold; the condition of one that is not marked,
    /// but stored with the timing and able to fire, comes not to hold.
    pub open spec fn fired_as_said(
        self,
        listed: Seq<TriggerId>,
        fired: Seq<bool>,
        timing: TriggerTiming,
        ctx: ConditionContext,
    ) -> bool {
        forall|k: int|
            0 <= k < fired.len() && k < listed.len() ==> {
                let id = listed[k];
                let fit = self.triggers.contains_key(id.0) && self.triggers[id.0].timing == timing
                    && self.triggers[id.0].fires();
                if #[trigger] fired[k] {
                    fit && comes_to(self.triggers[id.0].condition, ctx, true)
                } else {
                    fit ==> comes_to(self.triggers[id.0].condition, ctx, false)
                }
            }
    }

    /// Whether the flags mark only triggers that may fire, and every
    /// trigger that must.
    pub open spec fn fired_fairly(
        self,
        listed: Seq<TriggerId>,
        fired: Seq<bool>,
        timing: TriggerTiming,
        event: GameEventView,
        state: GameStateView,
        has_custom: bool,
    ) -> bool {
        forall|k: int|
            0 <= k < fired.len() && k < listed.len() ==> ((#[trigger] fired[k]) ==> self.may_fire(
                listed[k],
                timing,
                event,
                state,
                has_custom,
            )) && (self.must_fire(listed[k], timing, event, state, has_custom) ==> fired[k])
    }

    /// The priority and identifier by which a firing trigger is ordered.
    pub open spec fn key_of(self, id: TriggerId) -> (i32, u32) {
        (self.triggers[id.0].priority, id.0)
    }

    /// Whether a triggered effect is what the trigger stored under its
    /// identifier proposes for an event.
    pub open spec fn proposes(self, triggered: TriggeredEffect, event: GameEventView) -> bool {
        let trigger = self.triggers[triggered.trigger_id.0];
        &&& triggered.controller == trigger.controller
        &&& triggered.source == trigger.source
        &&& effect_views(triggered.effects@) == effect_views(trigger.effects@)
        &&& triggered.triggering_event@ == event
        &&& triggered.timing == trigger.timing
    }
}

/// `at` is where a key goes among keys: behind every key that comes no
/// later, up to the first that comes later.
pub open spec fn key_goes_at(keys: Seq<(i32, u32)>, key: (i32, u32), at: int) -> bool {
    &&& 0 <= at <= keys.len()
    &&& forall|i: int| 0 <= i < at ==> key_before(#[trigger] keys[i], key)
    &&& at < keys.len() ==> !key_before(keys[at], key)
}

/// Keys with one more put in its place.
pub open spec fn put_key(keys: Seq<(i32, u32)>, key: (i32, u32)) -> Seq<(i32, u32)> {
    keys.insert(choose|at: int| key_goes_at(keys, key, at), key)
}

/// The keys in firing order; equal keys stay in the order they came in.
pub open spec fn in_order(keys: Seq<(i32, u32)>) -> Seq<(i32, u32)>
    decreases keys.len(),
{
    if keys.len() == 0 {
        keys
    } else {
        put_key(in_order(keys.drop_last()), keys.last())
    }
}

/// The keys of the first `count` of the listed triggers that fired, in the
/// order listed.
pub open spec fn fired_keys(
    registry: RegistryView,
    listed: Seq<TriggerId>,
    fired: Seq<bool>,
    count: int,
) -> Seq<(i32, u32)>
    decreases count,
{
    if count <= 0 {
        Seq::empty()
    } else if fired[count - 1] {
        fired_keys(registry, listed, fired, count - 1).push(registry.key_of(listed[count - 1]))
    } else {
        fired_keys(registry, listed, fired, count - 1)
    }
}

/// The keys by which triggered effects are ordered.
pub open spec fn result_keys(registry: RegistryView, results: Seq<TriggeredEffect>) -> Seq<
    (i32, u32),
> {
    Seq::new(results.len(), |i: int| registry.key_of(results[i].trigger_id))
}

/// Marks which of the listed triggers fired.
/// It holds of everything: it only gives the prover a term to find the
/// values by.
pub open spec fn firing(fired: Seq<bool>) -> bool {
    true
}

/// Whether one more flag changes nothing of what fired among the first
/// `count`.
pub proof fn lemma_fired_keys_push(
    registry: RegistryView,
    listed: Seq<TriggerId>,
    fired: Seq<bool>,
    flag: bool,
    count: int,
)
    requires
        0 <= count <= fired.len(),
    ensures
        fired_keys(registry, listed, fired.push(flag), count) == fired_keys(
            registry,
            listed,
            fired,
            count,
        ),
    decreases count,
{
    if count > 0 {
        lemma_fired_keys_push(registry, listed, fired, flag, count - 1);
    }
}

/// Puts a key into keys that are in firing order, behind every key that
/// comes no later.
fn insert_key(keys: &mut Vec<(i32, u32)>, key: (i32, u32))
    requires
        in_firing_order(old(keys)@),
    ensures
        in_firing_order(final(keys)@),
        final(keys)@ == put_key(old(keys)@, key),
        final(keys)@.len() == old(keys)@.len() + 1,
        forall|other: (i32, u32)| #[trigger]
            final(keys)@.contains(other) <==> other == key || old(keys)@.contains(other),
{
    let mut at: usize = 0;
    while at < keys.len() && (keys[at].0 > key.0 || (keys[at].0 == key.0 && keys[at].1 <= key.1))
        invariant
            at <= keys@.len(),
            keys@ == old(keys)@,
            forall|i: int| 0 <= i < at ==> key_before(#[trigger] keys@[i], key),
        decreases keys@.len() - at,
    {
        at = at + 1;
    }
    let ghost before = keys@;
    proof {
        assert(key_goes_at(before, key, at as int));
        let chosen = choose|p: int| key_goes_at(before, key, p);
        if chosen < at {
            assert(key_before(before[chosen], key));
        } else if chosen > at {
            assert(key_before(before[at as int], key));
        }
    }
    keys.insert(at, key);
    proof {
        let after = keys@;
        assert(after == before.insert(at as int, key));
        assert forall|i: int, j: int| 0 <= i < j < after.len() implies key_before(
            #[trigger] after[i],
            #[trigger] after[j],
        ) by {
            if i < at && j > at {
                assert(after[i] == before[i] && after[j] == before[j - 1]);
            } else if i < at && j < at {
                assert(after[i] == before[i] && after[j] == before[j]);
            } else if i > at {
                assert(after[i] == before[i - 1] && after[j] == before[j - 1]);
            } else if i == at {
                assert(after[j] == before[j - 1]);
                assert(!key_before(before[at as int], key));
                if j - 1 > at {
                    assert(key_before(before[at as int], before[j - 1]));
                }
            } else {
                assert(after[i] == before[i]);
            }
        }
        assert forall|other: (i32, u32)| #[trigger]
            after.contains(other) <==> other == key || before.contains(other) by {
            if after.contains(other) {
                let i = choose|i: int| 0 <= i < after.len() && after[i] == other;
                if i < at {
                    assert(before[i] == other);
                } else if i > at {
                    assert(before[i - 1] == other);
                }
            }
            if other == key {
                assert(after[at as int] == other);
            }
            if before.contains(other) {
                let j = choose|j: int| 0 <= j < before.len() && before[j] == other;
                if j < at {
                    assert(after[j] == other);
                } else {
                    assert(after[j + 1] == other);
                }
            }
        }
    }
}

impl TriggerRegistry {
    /// The triggers that fire on an event, as the effects they propose.
    ///
    /// A trigger fires if it is listed under the event's type, has the
    /// given timing, is enabled with a use left, and its condition holds.
    /// Those that fire come by priority, highest first, and among equal
    /// priorities by identifier, lowest first.
    pub fn find_triggers(
        &self,
        event: &GameEvent,
        state: &GameState,
        timing: TriggerTiming,
        custom_eval: Option<&dyn CustomConditions>,
    ) -> (results: Vec<TriggeredEffect>)
        ensures
            results@.len() <= bucket_of(self@.buckets, event.event_type).len(),
            forall|i: int|
                0 <= i < results@.len() ==> {
                    let id = (#[trigger] results@[i]).trigger_id;
                    &&& bucket_of(self@.buckets, event.event_type).contains(id)
                    &&& self@.may_fire(id, timing, event@, state@, custom_eval is Some)
                    &&& self@.proposes(results@[i], event@)
                },
            forall|i: int, j: int|
                0 <= i < j < results@.len() ==> key_before(
                    self@.key_of((#[trigger] results@[i]).trigger_id),
                    self@.key_of((#[trigger] results@[j]).trigger_id),
                ),
            forall|k: int|
                0 <= k < bucket_of(self@.buckets, event.event_type).len() && self@.must_fire(
                    #[trigger] bucket_of(self@.buckets, event.event_type)[k],
                    timing,
                    event@,
                    state@,
                    custom_eval is Some,
                ) ==> exists|i: int|
                    0 <= i < results@.len() && (#[trigger] results@[i]).trigger_id == bucket_of(
                        self@.buckets,
                        event.event_type,
                    )[k],
            exists|fired: Seq<bool>| #[trigger]
                firing(fired) && fired.len() == bucket_of(self@.buckets, event.event_type).len()
                    && self@.fired_fairly(
                    bucket_of(self@.buckets, event.event_type),
                    fired,
                    timing,
                    event@,
                    state@,
                    custom_eval is Some,
                ) && self@.fired_as_said(
                    bucket_of(self@.buckets, event.event_type),
                    fired,
                    timing,
                    (ConditionContext { event, state, eval_custom: custom_eval }),
                ) && result_keys(self@, results@) == in_order(
                    fired_keys(
                        self@,
                        bucket_of(self@.buckets, event.event_type),
                        fired,
                        fired.len() as int,
                    ),
                ),
    {
        let ghost bucket = bucket_of(self@.buckets, event.event_type);
        let ghost has_custom = custom_eval is Some;
        let listed = match id_map_get(&self.by_event_type, event.event_type.0) {
            Some(listed) => listed,
            None => {
                let none: Vec<TriggeredEffect> = Vec::new();
                proof {
                    let fired = Seq::<bool>::empty();
                    assert(firing(fired));
                    assert(self@.fired_fairly(bucket, fired, timing, event@, state@, has_custom));
                    assert(result_keys(self@, none@) =~= in_order(
                        fired_keys(self@, bucket, fired, 0),
                    ));
                }
                return none;
            },
        };
        let ctx = ConditionContext { event, state, eval_custom: custom_eval };
        let mut keys: Vec<(i32, u32)> = Vec::new();
        let mut next: usize = 0;
        let ghost mut fired: Seq<bool> = Seq::empty();
        while next < listed.len()
            invariant
                next <= listed@.len(),
                fired.len() == next,
                self@.fired_fairly(bucket, fired, timing, event@, state@, has_custom),
                self@.fired_as_said(bucket, fired, timing, ctx),
                ctx == (ConditionContext { event, state, eval_custom: custom_eval }),
                keys@ == in_order(fired_keys(self@, bucket, fired, next as int)),
                listed@ == bucket,
                bucket == bucket_of(self@.buckets, event.event_type),
                ctx.event == event,
                ctx.state == state,
                ctx.eval_custom is Some == has_custom,
                keys@.len() <= next,
                in_firing_order(keys@),
                forall|i: int|
                    0 <= i < keys@.len() ==> {
                        let key = #[trigger] keys@[i];
                        &&& bucket.contains(TriggerId(key.1))
                        &&& self@.may_fire(TriggerId(key.1), timing, event@, state@, has_custom)
                        &&& key == self@.key_of(TriggerId(key.1))
                    },
                forall|k: int|
                    0 <= k < next && self@.must_fire(
                        #[trigger] bucket[k],
                        timing,
                        event@,
                        state@,
                        has_custom,
                    ) ==> keys@.contains(self@.key_of(bucket[k])),
            decreases listed@.len() - next,
        {
            let id = listed[next];
            let ghost before = keys@;
            let ghost mut fires = false;
            match id_map_get(&self.triggers, id.0) {
                Some(trigger) => {
                    if trigger.timing == timing && trigger.can_fire() && ConditionEvaluator::evaluate(
                        &trigger.condition,
                        &ctx,
                    ) {
                        insert_key(&mut keys, (trigger.priority, id.0));
                        proof {
                            fires = true;
                        }
                    }
                },
                None => {},
            }
            proof {
                lemma_fired_keys_push(self@, bucket, fired, fires, next as int);
                let longer = fired.push(fires);
                let so_far = fired_keys(self@, bucket, fired, next as int);
                if fires {
                    let now = fired_keys(self@, bucket, longer, next as int + 1);
                    assert(now == so_far.push(self@.key_of(id)));
                    assert(now.drop_last() =~= so_far);
                }
                assert(self@.fired_fairly(bucket, longer, timing, event@, state@, has_custom)) by {
                    assert forall|k: int| 0 <= k < longer.len() && k < bucket.len() implies ((
                    #[trigger] longer[k]) ==> self@.may_fire(
                        bucket[k],
                        timing,
                        event@,
                        state@,
                        has_custom,
                    )) && (self@.must_fire(bucket[k], timing, event@, state@, has_custom)
                        ==> longer[k]) by {
                        if k < next {
                            assert(longer[k] == fired[k]);
                        }
                    }
                }
                assert(self@.fired_as_said(bucket, longer, timing, ctx)) by {
                    assert forall|k: int| 0 <= k < longer.len() && k < bucket.len() implies {
                        let id = bucket[k];
                        let fit = self@.triggers.contains_key(id.0) && self@.triggers[id.0].timing
                            == timing && self@.triggers[id.0].fires();
                        if #[trigger] longer[k] {
                            fit && comes_to(self@.triggers[id.0].condition, ctx, true)
                        } else {
                            fit ==> comes_to(self@.triggers[id.0].condition, ctx, false)
                        }
                    } by {
                        if k < next {
                            assert(longer[k] == fired[k]);
                        }
                    }
                }
                fired = longer;
                assert(bucket[next as int] == id);
                assert(bucket.contains(id));
                assert forall|i: int| 0 <= i < keys@.len() implies {
                    let key = #[trigger] keys@[i];
                    &&& bucket.contains(TriggerId(key.1))
                    &&& self@.may_fire(TriggerId(key.1), timing, event@, state@, has_custom)
                    &&& key == self@.key_of(TriggerId(key.1))
                } by {
                    let key = keys@[i];
                    assert(keys@.contains(key));
                    if before.contains(key) {
                        let j = choose|j: int| 0 <= j < before.len() && before[j] == key;
                        assert(before[j] == key);
                    }
                }
                assert forall|k: int|
                    0 <= k < next + 1 && self@.must_fire(
                        #[trigger] bucket[k],
                        timing,
                        event@,
                        state@,
                        has_custom,
                    ) implies keys@.contains(self@.key_of(bucket[k])) by {
                    if k < next {
                        assert(before.contains(self@.key_of(bucket[k])));
                    }
                }
            }
            next = next + 1;
        }
        let mut results: Vec<TriggeredEffect> = Vec::new();
        let mut built: usize = 0;
        while built < keys.len()
            invariant
                built <= keys@.len(),
                results@.len() == built,
                forall|i: int|
                    0 <= i < keys@.len() ==> {
                        let key = #[trigger] keys@[i];
                        &&& bucket.contains(TriggerId(key.1))
                        &&& self@.may_fire(TriggerId(key.1), timing, event@, state@, has_custom)
                        &&& key == self@.key_of(TriggerId(key.1))
                    },
                forall|i: int|
                    0 <= i < built ==> (#[trigger] results@[i]).trigger_id.0 == keys@[i].1
                        && self@.proposes(results@[i], event@),
            decreases keys@.len() - built,
        {
            let key = keys[built];
            assert(self@.may_fire(TriggerId(keys@[built as int].1), timing, event@, state@, has_custom));
            match id_map_get(&self.triggers, key.1) {
                Some(trigger) => {
                    results.push(
                        TriggeredEffect {
                            trigger_id: TriggerId(key.1),
                            controller: trigger.controller,
                            source: trigger.source,
                            effects: clone_effects(&trigger.effects),
                            triggering_event: event.clone(),
                            timing: trigger.timing,
                        },
                    );
                },
                None => {},
            }
            built = built + 1;
        }
        proof {
            assert forall|i: int, j: int| 0 <= i < j < results@.len() implies key_before(
                self@.key_of((#[trigger] results@[i]).trigger_id),
                self@.key_of((#[trigger] results@[j]).trigger_id),
            ) by {
                assert(key_before(keys@[i], keys@[j]));
                assert(keys@[i] == self@.key_of(TriggerId(keys@[i].1)));
                assert(keys@[j] == self@.key_of(TriggerId(keys@[j].1)));
            }
            assert forall|k: int|
                0 <= k < bucket.len() && self@.must_fire(
                    #[trigger] bucket[k],
                    timing,
                    event@,
                    state@,
                    has_custom,
                ) implies exists|i: int|
                0 <= i < results@.len() && (#[trigger] results@[i]).trigger_id == bucket[k] by {
                let key = self@.key_of(bucket[k]);
                assert(keys@.contains(key));
                let i = choose|i: int| 0 <= i < keys@.len() && keys@[i] == key;
                assert(results@[i].trigger_id == bucket[k]);
            }
            assert forall|i: int| 0 <= i < results@.len() implies {
                let id = (#[trigger] results@[i]).trigger_id;
                &&& bucket.contains(id)
                &&& self@.may_fire(id, timing, event@, state@, has_custom)
                &&& self@.proposes(results@[i], event@)
            } by {
                assert(results@[i].trigger_id == TriggerId(keys@[i].1));
            }
            assert(firing(fired));
            assert(result_keys(self@, results@) =~= keys@) by {
                assert forall|i: int| 0 <= i < results@.len() implies result_keys(self@, results@)[i]
                    == keys@[i] by {
                    assert(results@[i].trigger_id == TriggerId(keys@[i].1));
                    assert(keys@[i] == self@.key_of(TriggerId(keys@[i].1)));
                }
            }
        }
        results
    }
}

} // verus!
