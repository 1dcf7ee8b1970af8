//! Actions: a template, the verb, and entity pointers, its nouns.
//!
//! "Pass" is a template alone; "play this card" is a template and one
//! pointer; "attack that with this" is a template and two. The engine
//! stores and compares templates and never reads a meaning into them.

use super::config::TemplateId;
use super::entity::EntityId;
use super::player::PlayerId;
use smallvec::SmallVec;
use vstd::prelude::*;

verus! {

/// The pointers of an action, in order: a `smallvec::SmallVec` that keeps
/// up to three of them inline. What it holds is `pointer_items`.
#[derive(Debug, PartialEq, Eq, Hash)]
#[verifier::external_body]
pub struct PointerList {
    inner: SmallVec<[EntityId; 3]>,
}

/// The entities a pointer list holds, first pointer first.
pub uninterp spec fn pointer_items(list: PointerList) -> Seq<EntityId>;

/// `SmallVec::new`: a list that holds nothing.
#[verifier::external_body]
fn pointers_new() -> (list: PointerList)
    ensures
        pointer_items(list) == Seq::<EntityId>::empty(),
{
    PointerList { inner: SmallVec::new() }
}

/// `SmallVec::from_slice`: a list that holds what the slice holds.
#[verifier::external_body]
fn pointers_from_slice(items: &[EntityId]) -> (list: PointerList)
    ensures
        pointer_items(list) == items@,
{
    PointerList { inner: SmallVec::from_slice(items) }
}

/// `SmallVec::push`: the entity is added last.
#[verifier::external_body]
fn pointers_push(list: &mut PointerList, entity: EntityId)
    ensures
        pointer_items(*final(list)) == pointer_items(*old(list)).push(entity),
{
    list.inner.push(entity);
}

/// `SmallVec::as_slice`: the entities as a slice.
#[verifier::external_body]
fn pointers_as_slice<'a>(list: &'a PointerList) -> (items: &'a [EntityId])
    ensures
        items@ == pointer_items(*list),
{
    list.inner.as_slice()
}

impl View for PointerList {
    type V = Seq<EntityId>;

    open spec fn view(&self) -> Seq<EntityId> {
        pointer_items(*self)
    }
}

impl PointerList {
    /// A list without pointers.
    pub fn new() -> (list: Self)
        ensures
            list@ == Seq::<EntityId>::empty(),
    {
        pointers_new()
    }

    /// A list of the given pointers.
    pub fn from_slice(items: &[EntityId]) -> (list: Self)
        ensures
            list@ == items@,
    {
        pointers_from_slice(items)
    }

    /// Adds a pointer at the end.
    pub fn push(&mut self, entity: EntityId)
        ensures
            final(self)@ == old(self)@.push(entity),
    {
        pointers_push(self, entity);
    }

    /// The pointers as a slice.
    pub fn as_slice(&self) -> (items: &[EntityId])
        ensures
            items@ == self@,
    {
        pointers_as_slice(self)
    }

    /// The number of pointers.
    pub fn len(&self) -> (count: usize)
        ensures
            count == self@.len(),
    {
        self.as_slice().len()
    }

    /// Whether there are no pointers.
    pub fn is_empty(&self) -> (empty: bool)
        ensures
            empty == (self@.len() == 0),
    {
        self.as_slice().len() == 0
    }

    /// The pointer at a position, if there is one.
    pub fn get(&self, position: usize) -> (entity: Option<EntityId>)
        ensures
            entity == (if position < self@.len() {
                Some(self@[position as int])
            } else {
                None
            }),
    {
        let items = self.as_slice();
        if position < items.len() {
            Some(items[position])
        } else {
            None
        }
    }

    /// The first pointer, if there is one.
    pub fn first(&self) -> (entity: Option<EntityId>)
        ensures
            entity == (if 0 < self@.len() {
                Some(self@[0])
            } else {
                None
            }),
    {
        self.get(0)
    }

}

impl Clone for PointerList {
    fn clone(&self) -> (copy: Self)
        ensures
            copy@ == self@,
    {
        pointers_from_slice(self.as_slice())
    }
}

impl std::ops::Index<usize> for PointerList {
    type Output = EntityId;

    fn index(&self, position: usize) -> (entity: &EntityId)
        ensures
            *entity == self@[position as int],
    {
        &self.as_slice()[position]
    }
}

impl vstd::std_specs::core::IndexSpecImpl<usize> for PointerList {
    open spec fn index_req(&self, position: &usize) -> bool {
        *position < self@.len()
    }
}

/// Whether two entity sequences are the same.
pub fn same_entities(left: &[EntityId], right: &[EntityId]) -> (same: bool)
    ensures
        same == (left@ == right@),
{
    if left.len() != right.len() {
        return false;
    }
    let mut next: usize = 0;
    while next < left.len()
        invariant
            next <= left@.len(),
            left@.len() == right@.len(),
            forall|i: int| 0 <= i < next ==> left@[i] == right@[i],
        decreases left@.len() - next,
    {
        if left[next] != right[next] {
            return false;
        }
        next = next + 1;
    }
    assert(left@ =~= right@);
    true
}

/// A complete game action.
#[derive(Debug, Hash)]
pub struct Action {
    /// The kind of action.
    pub template: TemplateId,
    /// What the action points at: sources, targets and the like.
    pub pointers: PointerList,
}

/// An action as plain values.
pub struct ActionView {
    pub template: TemplateId,
    pub pointers: Seq<EntityId>,
}

impl View for Action {
    type V = ActionView;

    open spec fn view(&self) -> ActionView {
        ActionView { template: self.template, pointers: self.pointers@ }
    }
}

impl Action {
    /// An action without pointers.
    pub fn new(template: TemplateId) -> (action: Self)
        ensures
            action@ == (ActionView { template, pointers: Seq::empty() }),
    {
        Action { template, pointers: PointerList::new() }
    }

    /// An action with the given pointers.
    pub fn with_pointers(template: TemplateId, pointers: &[EntityId]) -> (action: Self)
        ensures
            action@ == (ActionView { template, pointers: pointers@ }),
    {
        Action { template, pointers: PointerList::from_slice(pointers) }
    }

    /// Adds a pointer at the end.
    pub fn push_pointer(&mut self, entity: EntityId)
        ensures
            final(self)@ == (ActionView {
                template: old(self).template,
                pointers: old(self)@.pointers.push(entity),
            }),
    {
        self.pointers.push(entity);
    }

    /// The number of pointers.
    pub fn pointer_count(&self) -> (count: usize)
        ensures
            count == self@.pointers.len(),
    {
        self.pointers.len()
    }

    /// Whether the action has no pointers.
    pub fn is_no_arg(&self) -> (no_arg: bool)
        ensures
            no_arg == (self@.pointers.len() == 0),
    {
        self.pointers.is_empty()
    }
}

impl Clone for Action {
    fn clone(&self) -> (copy: Self)
        ensures
            copy@ == self@,
    {
        Action { template: self.template, pointers: self.pointers.clone() }
    }
}

impl PartialEq for Action {
    fn eq(&self, other: &Self) -> (equal: bool) {
        self.template == other.template && same_entities(
            self.pointers.as_slice(),
            other.pointers.as_slice(),
        )
    }
}

impl Eq for Action {

}

impl vstd::std_specs::cmp::PartialEqSpecImpl for Action {
    open spec fn obeys_eq_spec() -> bool {
        true
    }

    open spec fn eq_spec(&self, other: &Self) -> bool {
        self@ == other@
    }
}

/// An action as it was taken, kept for history, replay and training.
#[derive(Debug, PartialEq, Eq)]
pub struct ActionRecord {
    /// Who took the action.
    pub player: PlayerId,
    /// What was done.
    pub action: Action,
    /// The turn it was taken in.
    pub turn: u32,
    /// Its place among the actions of that turn.
    pub sequence: u32,
}

/// An action record as plain values.
pub struct ActionRecordView {
    pub player: PlayerId,
    pub action: ActionView,
    pub turn: u32,
    pub sequence: u32,
}

impl View for ActionRecord {
    type V = ActionRecordView;

    open spec fn view(&self) -> ActionRecordView {
        ActionRecordView {
            player: self.player,
            action: self.action@,
            turn: self.turn,
            sequence: self.sequence,
        }
    }
}

impl ActionRecord {
    /// A record of `action`, taken by `player`.
    pub fn new(player: PlayerId, action: Action, turn: u32, sequence: u32) -> (record: Self)
        ensures
            record == (ActionRecord { player, action, turn, sequence }),
    {
        ActionRecord { player, action, turn, sequence }
    }
}

impl Clone for ActionRecord {
    fn clone(&self) -> (copy: Self)
        ensures
            copy@ == self@,
    {
        ActionRecord {
            player: self.player,
            action: self.action.clone(),
            turn: self.turn,
            sequence: self.sequence,
        }
    }
}

} // verus!
