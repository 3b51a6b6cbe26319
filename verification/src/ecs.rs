//! The world: entities, their components, resources and events.
use vstd::prelude::*;

use crate::components::{sig_bit, Components, LINE_CAPACITY, SIG_BITS};
use crate::entities::{Entities, spec_is_alive};
pub use crate::entities::{EntityID, Sigtype, TypeKey};
use crate::events::{Event, Events};
use crate::line::{entries_set, entries_slot, entries_wf, lemma_entries_set_wf, line_get, line_get_mut};
use std::collections::hash_map::Entry;
use crate::recources::Recources;
use crate::laws::law_entities_with_exact;
pub use crate::signature::sig_has;
use crate::consistency::{
    lemma_attach_consistent, lemma_despawn_consistent, lemma_empty_consistent, lemma_pop_consistent,
    lemma_lines_kept_consistent, lemma_register_consistent, lemma_spawn_consistent, lemma_write_consistent,
    world_consistent,
};

verus! {

broadcast use {
    vstd::std_specs::hash::group_hash_axioms,
    vstd::std_specs::hash::axiom_has_resolved_entry,
};

/// The slot that `spawn_entity` fills: the first free slot, or a new one
/// past the end when every slot is taken.
pub open spec fn first_free_slot(info: Seq<Option<Sigtype>>) -> int
    decreases info.len(),
{
    if info.len() == 0 {
        0
    } else {
        let prefix = first_free_slot(info.drop_last());
        if prefix < info.len() - 1 {
            prefix
        } else if info.last() is None {
            info.len() - 1
        } else {
            info.len() as int
        }
    }
}

/// The ids of the occupied slots, in increasing order.
pub open spec fn occupied_ids(info: Seq<Option<Sigtype>>) -> Seq<EntityID>
    decreases info.len(),
{
    if info.len() == 0 {
        Seq::empty()
    } else {
        let prefix = occupied_ids(info.drop_last());
        if info.last() is Some {
            prefix.push((info.len() - 1) as EntityID)
        } else {
            prefix
        }
    }
}


/// The entity, component, resource and event stores of one world.
pub struct ECS<R, E> {
    pub entities: Entities,
    pub compoents: Components,
    pub recources: Recources<R>,
    pub events: Events<E>,
}

impl<R, E: Event> ECS<R, E> {
    /// The invariant of the component bookkeeping.
    pub open spec fn wf(&self) -> bool {
        self.compoents.wf()
    }

    /// Whether signatures and component slots agree: a live slot's signature
    /// holds a registered kind's bit exactly when the kind's line holds a
    /// value for it, a free slot or an id past the table has no values, and
    /// signatures hold only bits handed out (see [`world_consistent`]).
    pub open spec fn consistent(&self) -> bool {
        world_consistent(self.entities@, self.compoents)
    }

    /// An empty world.
    pub fn new() -> (res: Self)
        ensures
            res.wf(),
            res.consistent(),
            res.entities@ == Seq::<Option<Sigtype>>::empty(),
            res.compoents.sig_offset == 0,
            res.compoents.type_to_sig@ == Map::<TypeKey, Sigtype>::empty(),
            res.recources@ == Map::<TypeKey, R>::empty(),
            res.events.current() == Seq::<(TypeKey, E)>::empty(),
            res.events.next() == Seq::<(TypeKey, E)>::empty(),
    {
        let res = Self {
            entities: Entities::new(),
            compoents: Components::new(),
            recources: Recources::new(),
            events: Events::new(),
        };
        proof {
            lemma_empty_consistent(res.compoents);
        }
        res
    }

    /// Takes the first free slot for a new entity with no components, or
    /// appends a slot when none is free; returns the slot's id.
    pub fn spawn_entity(&mut self) -> (entity_id: EntityID)
        ensures
            entity_id == first_free_slot(old(self).entities@),
            old(self).wf() && old(self).consistent() ==> final(self).consistent(),
            final(self).entities@ == (if entity_id < old(self).entities@.len() {
                old(self).entities@.update(entity_id as int, Some(0u128))
            } else {
                old(self).entities@.push(Some(0u128))
            }),
            final(self).compoents == old(self).compoents,
            final(self).recources == old(self).recources,
            final(self).events == old(self).events,
    {
        let ghost info = self.entities@;
        let ghost old_self = *self;
        let mut i: usize = 0;
        while i < self.entities.entity_info.len()
            invariant
                *self == old_self,
                old_self == *old(self),
                self.entities@ == info,
                0 <= i <= info.len(),
                forall|j: int| 0 <= j < i ==> info[j] is Some,
            decreases info.len() - i,
        {
            let slot = self.entities.entity_info[i];
            match slot {
                None => {
                    proof { lemma_first_free_slot(info, i as int); }
                    self.entities.entity_info.set(i, Some(0));
                    proof {
                        if old_self.wf() && old_self.consistent() {
                            lemma_spawn_consistent(info, old_self.compoents, i as EntityID, self.entities@);
                        }
                    }
                    return i;
                },
                Some(_) => (),
            }
            i = i + 1;
        }
        proof { lemma_first_free_slot(info, info.len() as int); }
        self.entities.entity_info.push(Some(0));
        let entity_id = self.entities.entity_info.len() - 1;
        proof {
            if old_self.wf() && old_self.consistent() {
                lemma_spawn_consistent(info, old_self.compoents, entity_id, self.entities@);
            }
        }
        entity_id
    }

    /// Stores `recource` as the resource of kind `key`.
    pub fn push_recource(&mut self, key: TypeKey, recource: R)
        ensures
            final(self).recources@ == old(self).recources@.insert(key, recource),
            final(self).entities == old(self).entities,
            final(self).compoents == old(self).compoents,
            final(self).events == old(self).events,
    {
        self.recources.insert_recource(key, recource);
    }

    /// Whether a resource of kind `key` is stored.
    pub fn has_recource(&self, key: TypeKey) -> (res: bool)
        ensures
            res == self.recources@.contains_key(key),
    {
        self.recources.has_recource(key)
    }

    /// Takes the resource of kind `key` out of the world.
    pub fn pop_recource(&mut self, key: TypeKey) -> (res: Option<R>)
        ensures
            res == old(self).recources@.get(key),
            final(self).recources@ == old(self).recources@.remove(key),
            final(self).entities == old(self).entities,
            final(self).compoents == old(self).compoents,
            final(self).events == old(self).events,
    {
        self.recources.pop_recource(key)
    }

    /// Mutable access to the resource of kind `key`.
    pub fn get_recource_mut(&mut self, key: TypeKey) -> (res: Option<&mut R>)
        ensures
            final(self).entities == old(self).entities,
            final(self).compoents == old(self).compoents,
            final(self).events == old(self).events,
            match res {
                Some(r) => {
                    &&& old(self).recources@.contains_key(key)
                    &&& *r == old(self).recources@[key]
                    &&& final(self).recources@ == old(self).recources@.insert(key, *final(r))
                },
                None => {
                    &&& !old(self).recources@.contains_key(key)
                    &&& final(self).recources@ == old(self).recources@
                },
            },
    {
        self.recources.get_recource_mut(key)
    }

    /// The resource of kind `key`, if stored.
    pub fn get_recource_ref(&self, key: TypeKey) -> (res: Option<&R>)
        ensures
            match res {
                Some(r) => self.recources@.contains_key(key) && *r == self.recources@[key],
                None => !self.recources@.contains_key(key),
            },
    {
        self.recources.get_recource_ref(key)
    }

    /// The event being handled, when it is of kind `key`.
    pub fn get_event(&mut self, key: TypeKey) -> (res: Option<&E>)
        ensures
            final(self).events.current() == old(self).events.current(),
            final(self).events.next() == old(self).events.next(),
            final(self).entities == old(self).entities,
            final(self).compoents == old(self).compoents,
            final(self).recources == old(self).recources,
            match res {
                Some(e) => old(self).events.current().len() > 0 && old(self).events.current()[0].0
                    == key && *e == old(self).events.current()[0].1,
                None => old(self).events.current().len() == 0 || old(self).events.current()[0].0
                    != key,
            },
    {
        self.events.get_latest_event(key)
    }

    /// Raises an event of kind `key` for the next tick.
    pub fn push_event(&mut self, key: TypeKey, event: E)
        ensures
            final(self).events.current() == old(self).events.current(),
            final(self).events.next() == old(self).events.next().push((key, event)),
            final(self).entities == old(self).entities,
            final(self).compoents == old(self).compoents,
            final(self).recources == old(self).recources,
    {
        self.events.push_next_tick_event(key, event);
    }


    /// Whether `entity_id` is a live entity that has a component of kind
    /// `key`: the kind is registered and the entity's signature holds its bit.
    pub open spec fn spec_has_component(&self, entity_id: int, key: TypeKey) -> bool {
        &&& spec_is_alive(self.entities@, entity_id)
        &&& self.compoents.is_registered(key)
        &&& sig_has(self.entities@[entity_id].unwrap(), self.compoents.type_to_sig@[key])
    }

    /// Attaches `component` of kind `key` to `entity_id`: the kind is
    /// registered if new, the value goes into the entity's slot of the kind's
    /// line, and the kind's bit is added to the entity's signature (an empty
    /// slot gets the bit alone).
    pub fn attach_component(&mut self, entity_id: EntityID, key: TypeKey, component: u64)
        requires
            old(self).wf(),
            old(self).compoents.is_registered(key) || old(self).compoents.sig_offset < SIG_BITS,
            entity_id < LINE_CAPACITY,
            entity_id < old(self).entities@.len(),
        ensures
            final(self).wf(),
            old(self).consistent() ==> final(self).consistent(),
            final(self).compoents.is_registered(key),
            final(self).compoents.type_to_sig@[key] == old(self).compoents.sig_after_register(key),
            final(self).compoents.type_to_sig@ == old(self).compoents.type_to_sig@.insert(
                key,
                old(self).compoents.sig_after_register(key),
            ),
            final(self).compoents.sig_offset == old(self).compoents.sig_offset + (if old(
                self,
            ).compoents.is_registered(key) {
                0int
            } else {
                1int
            }),
            final(self).entities@ == old(self).entities@.update(
                entity_id as int,
                Some(
                    match old(self).entities@[entity_id as int] {
                        Some(s) => s | old(self).compoents.sig_after_register(key),
                        None => old(self).compoents.sig_after_register(key),
                    },
                ),
            ),
            final(self).compoents.line_of(key) == entries_set(
                old(self).compoents.line_or_empty(key),
                entity_id,
                Some(component),
            ),
            forall|k: TypeKey| k != key ==> #[trigger] final(self).compoents.component_lines@.get(k)
                == old(self).compoents.component_lines@.get(k),
            forall|k: TypeKey| k != key ==> #[trigger] final(self).compoents.type_to_sig@.get(k)
                == old(self).compoents.type_to_sig@.get(k),
            final(self).recources == old(self).recources,
            final(self).events == old(self).events,
    {
        let ghost info = self.entities@;
        let ghost c0 = self.compoents;
        self.compoents.initialize_component(key);
        let ghost c1 = self.compoents;
        proof {
            if world_consistent(info, c0) && !c0.is_registered(key) {
                lemma_register_consistent(info, c0, c1, key);
            }
        }
        let component_signature = *self.compoents.type_to_sig.get(&key).unwrap();
        self.compoents.insert_component(component, key, entity_id);
        match self.entities.entity_info[entity_id] {
            Some(signature) => {
                self.entities.entity_info.set(entity_id, Some(signature | component_signature));
            },
            None => {
                self.entities.entity_info.set(entity_id, Some(component_signature));
            },
        }
        proof {
            if world_consistent(info, c0) {
                lemma_attach_consistent(info, c1, self.entities@, self.compoents, entity_id, key, component);
            }
        }
    }

    /// Detaches the component of kind `key` from `entity_id` and returns it:
    /// the entity's slot in the kind's line is emptied and the kind's bit is
    /// toggled in its signature (an empty slot becomes an entity with no
    /// components). Fails when the id is past the slot table, or when the
    /// entity's slot in the line holds no component.
    pub fn pop_component(&mut self, entity_id: EntityID, key: TypeKey) -> (res: Result<u64, String>)
        requires
            old(self).wf(),
            old(self).compoents.is_registered(key) || old(self).compoents.sig_offset < SIG_BITS,
            entity_id < usize::MAX,
            entity_id >= old(self).entities@.len() || entity_id < LINE_CAPACITY,
        ensures
            final(self).wf(),
            old(self).consistent() ==> final(self).consistent(),
            final(self).compoents.is_registered(key),
            final(self).compoents.type_to_sig@[key] == old(self).compoents.sig_after_register(key),
            final(self).compoents.type_to_sig@ == old(self).compoents.type_to_sig@.insert(
                key,
                old(self).compoents.sig_after_register(key),
            ),
            final(self).compoents.sig_offset == old(self).compoents.sig_offset + (if old(
                self,
            ).compoents.is_registered(key) {
                0int
            } else {
                1int
            }),
            forall|k: TypeKey| k != key ==> #[trigger] final(self).compoents.component_lines@.get(k)
                == old(self).compoents.component_lines@.get(k),
            forall|k: TypeKey| k != key ==> #[trigger] final(self).compoents.type_to_sig@.get(k)
                == old(self).compoents.type_to_sig@.get(k),
            final(self).recources == old(self).recources,
            final(self).events == old(self).events,
            entity_id >= old(self).entities@.len() ==> {
                &&& res matches Err(e) && e@ == "trying to index entity outside lenth"@
                &&& final(self).entities@ == old(self).entities@
                &&& final(self).compoents.line_of(key) == old(self).compoents.line_or_empty(key)
            },
            entity_id < old(self).entities@.len() && entries_slot(
                old(self).compoents.line_or_empty(key),
                entity_id,
            ) is None ==> {
                &&& res matches Err(e) && e@ == "entity doesnt have component"@
                &&& final(self).entities@ == old(self).entities@
                &&& final(self).compoents.line_of(key) == old(self).compoents.line_or_empty(key)
            },
            entity_id < old(self).entities@.len() && entries_slot(
                old(self).compoents.line_or_empty(key),
                entity_id,
            ) is Some ==> {
                &&& res == Ok::<u64, String>(
                    entries_slot(old(self).compoents.line_or_empty(key), entity_id).unwrap(),
                )
                &&& final(self).compoents.line_of(key) == entries_set(
                    old(self).compoents.line_or_empty(key),
                    entity_id,
                    None,
                )
                &&& final(self).entities@ == old(self).entities@.update(
                    entity_id as int,
                    Some(
                        match old(self).entities@[entity_id as int] {
                            Some(s) => s ^ old(self).compoents.sig_after_register(key),
                            None => 0u128,
                        },
                    ),
                )
            },
    {
        let ghost info = self.entities@;
        let ghost c0 = self.compoents;
        self.compoents.initialize_component(key);
        let ghost c1 = self.compoents;
        proof {
            if world_consistent(info, c0) && !c0.is_registered(key) {
                lemma_register_consistent(info, c0, c1, key);
            }
        }
        let component_signature = *self.compoents.type_to_sig.get(&key).unwrap();
        if self.entities.entity_info.len() < entity_id + 1 {
            return Err("trying to index entity outside lenth".to_owned());
        }
        let component_line = self.compoents.component_lines.get(&key).unwrap();
        let component = match line_get(component_line, entity_id) {
            Some(Some(c)) => *c,
            _ => {
                return Err("entity doesnt have component".to_owned());
            },
        };
        self.compoents.line_store(key, entity_id, None);
        match self.entities.entity_info[entity_id] {
            Some(signature) => {
                self.entities.entity_info.set(entity_id, Some(signature ^ component_signature));
            },
            None => {
                self.entities.entity_info.set(entity_id, Some(0));
            },
        }
        proof {
            if world_consistent(info, c0) {
                lemma_pop_consistent(info, c1, self.entities@, self.compoents, entity_id, key);
            }
        }
        Ok(component)
    }

    /// Frees the slot of `entity_id` and clears its slot in every component
    /// line; fails when the id is past the slot table.
    pub fn despawn_entity(&mut self, entity_id: EntityID) -> (res: Result<(), String>)
        requires
            old(self).wf(),
            entity_id < usize::MAX,
            entity_id >= old(self).entities@.len() || old(self).compoents.sig_offset == 0
                || entity_id < LINE_CAPACITY,
        ensures
            final(self).wf(),
            old(self).consistent() ==> final(self).consistent(),
            final(self).recources == old(self).recources,
            final(self).events == old(self).events,
            final(self).compoents.type_to_sig == old(self).compoents.type_to_sig,
            final(self).compoents.sig_offset == old(self).compoents.sig_offset,
            entity_id >= old(self).entities@.len() ==> {
                &&& res matches Err(e) && e@ == "trying to index entity outside lenth"@
                &&& *final(self) == *old(self)
            },
            entity_id < old(self).entities@.len() ==> {
                &&& res is Ok
                &&& final(self).entities@ == old(self).entities@.update(entity_id as int, None)
                &&& forall|k: TypeKey| #[trigger] old(self).compoents.is_registered(k)
                    ==> final(self).compoents.line_of(k) == entries_set(
                    old(self).compoents.line_of(k),
                    entity_id,
                    None,
                )
            },
    {
        if self.entities.entity_info.len() < entity_id + 1 {
            return Err("trying to index entity outside lenth".to_owned());
        }
        let ghost info = self.entities@;
        let ghost c0 = self.compoents;
        self.compoents.free_all_components_at_entity_id(entity_id);
        self.entities.entity_info.set(entity_id, None);
        proof {
            if world_consistent(info, c0) {
                lemma_despawn_consistent(info, c0, self.entities@, self.compoents, entity_id);
            }
        }
        Ok(())
    }

    /// The component of kind `key` stored for `entity_id`, if any.
    pub fn get_component_ref(&self, entity_id: EntityID, key: TypeKey) -> (res: Option<&u64>)
        requires
            self.wf(),
            self.compoents.is_registered(key),
            entity_id < LINE_CAPACITY,
        ensures
            match res {
                Some(c) => self.compoents.slot(key, entity_id) == Some(*c),
                None => self.compoents.slot(key, entity_id) is None,
            },
    {
        let component_line = self.compoents.component_lines.get(&key).unwrap();
        match line_get(component_line, entity_id) {
            Some(slot) => slot.as_ref(),
            None => None,
        }
    }


    /// Mutable access to the component of kind `key` stored for
    /// `entity_id`; what is written through it is stored in that slot.
    pub fn get_component_mut(&mut self, entity_id: EntityID, key: TypeKey) -> (res: Option<&mut u64>)
        requires
            old(self).wf(),
            old(self).compoents.is_registered(key),
            entity_id < LINE_CAPACITY,
        ensures
            final(self).wf(),
            final(self).entities == old(self).entities,
            final(self).recources == old(self).recources,
            final(self).events == old(self).events,
            final(self).compoents.type_to_sig == old(self).compoents.type_to_sig,
            final(self).compoents.sig_to_type == old(self).compoents.sig_to_type,
            final(self).compoents.sig_to_data == old(self).compoents.sig_to_data,
            final(self).compoents.sig_offset == old(self).compoents.sig_offset,
            final(self).compoents.registered == old(self).compoents.registered,
            final(self).compoents.component_lines@.dom() == old(self).compoents.component_lines@.dom(),
            old(self).consistent() ==> final(self).consistent(),
            forall|k: TypeKey| k != key ==> #[trigger] final(self).compoents.component_lines@.get(k)
                == old(self).compoents.component_lines@.get(k),
            match res {
                Some(c) => {
                    &&& old(self).compoents.slot(key, entity_id) == Some(*c)
                    &&& final(self).compoents.line_of(key) == entries_set(
                        old(self).compoents.line_of(key),
                        entity_id,
                        Some(*final(c)),
                    )
                },
                None => {
                    &&& old(self).compoents.slot(key, entity_id) is None
                    &&& final(self).compoents.line_of(key) == old(self).compoents.line_of(key)
                },
            },
    {
        proof {
            let entries = self.compoents.line_of(key);
            assert(self.compoents.component_lines@.contains_key(key));
            assert forall|v: Option<u64>| entries_wf(#[trigger] entries_set(entries, entity_id, v), LINE_CAPACITY as nat) by {
                lemma_entries_set_wf(entries, LINE_CAPACITY as nat, entity_id, v);
            }
            let info = self.entities@;
            let c0 = self.compoents;
            if world_consistent(info, c0) {
                assert forall|c2: Components, v: Option<u64>|
                    c2.type_to_sig@ == c0.type_to_sig@ && c2.sig_offset == c0.sig_offset
                        && (forall|k: TypeKey| k != key ==> #[trigger] c2.component_lines@.get(k)
                        == c0.component_lines@.get(k))
                        && c2.line_of(key) == #[trigger] entries_set(entries, entity_id, v)
                        && (v is Some <==> c0.slot(key, entity_id) is Some)
                    implies #[trigger] world_consistent(info, c2) by {
                    lemma_write_consistent(info, c0, c2, entity_id, key, v);
                }
                assert forall|c2: Components|
                    c2.type_to_sig@ == c0.type_to_sig@ && c2.sig_offset == c0.sig_offset
                        && (forall|k: TypeKey| k != key ==> #[trigger] c2.component_lines@.get(k)
                        == c0.component_lines@.get(k))
                        && c2.line_of(key) == entries
                    implies #[trigger] world_consistent(info, c2) by {
                    lemma_lines_kept_consistent(info, c0, c2, key);
                }
            }
        }
        match self.compoents.component_lines.entry(key) {
            Entry::Occupied(entry) => {
                let component_line = entry.into_mut();
                match line_get_mut(component_line, entity_id) {
                    Some(slot) => slot.as_mut(),
                    None => None,
                }
            },
            Entry::Vacant(_) => None,
        }
    }

    /// Whether `entity_id` is live and has a component of kind `key`.
    pub fn has_component_immut(&self, entity_id: EntityID, key: TypeKey) -> (res: bool)
        requires
            entity_id < usize::MAX,
        ensures
            res == self.spec_has_component(entity_id as int, key),
            res == (entity_id < self.entities@.len() && self.entities@[entity_id as int] is Some && (
            entity_id == 0 || entity_id + 1 < self.entities@.len()) && self.compoents.is_registered(key)
                && sig_has(self.entities@[entity_id as int].unwrap(), self.compoents.type_to_sig@[key])),
    {
        if !self.entities.is_alive(entity_id) {
            return false;
        }
        if !self.compoents.type_to_sig.contains_key(&key) {
            return false;
        }
        let component_signature = *self.compoents.type_to_sig.get(&key).unwrap();
        let entity_signature = self.entities.get_entity_signature(entity_id).unwrap();
        (entity_signature & component_signature) == component_signature
    }

    /// Registers kind `key` if it is new, then answers as `has_component_immut`.
    pub fn has_component(&mut self, entity_id: EntityID, key: TypeKey) -> (res: bool)
        requires
            old(self).wf(),
            old(self).compoents.is_registered(key) || old(self).compoents.sig_offset < SIG_BITS,
            entity_id < usize::MAX,
        ensures
            final(self).wf(),
            old(self).consistent() ==> final(self).consistent(),
            final(self).compoents.is_registered(key),
            final(self).entities == old(self).entities,
            final(self).recources == old(self).recources,
            final(self).events == old(self).events,
            old(self).compoents.is_registered(key) ==> final(self).compoents == old(self).compoents,
            final(self).compoents.type_to_sig@ == old(self).compoents.type_to_sig@.insert(
                key,
                old(self).compoents.sig_after_register(key),
            ),
            final(self).compoents.sig_offset == old(self).compoents.sig_offset + (if old(
                self,
            ).compoents.is_registered(key) {
                0int
            } else {
                1int
            }),
            final(self).compoents.line_of(key) == old(self).compoents.line_or_empty(key),
            res == final(self).spec_has_component(entity_id as int, key),
    {
        let ghost c0 = self.compoents;
        self.compoents.initialize_component(key);
        proof {
            if world_consistent(self.entities@, c0) && !c0.is_registered(key) {
                lemma_register_consistent(self.entities@, c0, self.compoents, key);
            }
        }
        self.has_component_immut(entity_id, key)
    }

    /// Whether an id names a live entity with a component of kind `key`.
    pub open spec fn has_kind(&self, key: TypeKey) -> spec_fn(EntityID) -> bool {
        |id: EntityID| self.spec_has_component(id as int, key)
    }

    /// The ids of the occupied slots whose entity has a component of kind
    /// `key`, in increasing order.
    pub open spec fn ids_with(&self, key: TypeKey) -> Seq<EntityID> {
        occupied_ids(self.entities@).filter(self.has_kind(key))
    }

    /// The live entities that have a component of kind `key`, in increasing
    /// order of id (those `has_component_immut` answers `true` for).
    pub fn entities_with(&self, key: TypeKey) -> (res: Vec<EntityID>)
        ensures
            res@ == self.ids_with(key),
            forall|id: EntityID| #[trigger] res@.contains(id) <==> self.spec_has_component(id as int, key),
            forall|a: int, b: int| 0 <= a < b < res@.len() ==> res@[a] < res@[b],
    {
        let mut pih: Vec<EntityID> = Vec::new();
        let mut i: usize = 0;
        while i < self.entities.entity_info.len()
            invariant
                0 <= i <= self.entities@.len(),
                pih@ == occupied_ids(self.entities@.take(i as int)).filter(self.has_kind(key)),
            decreases self.entities@.len() - i,
        {
            let ghost before = occupied_ids(self.entities@.take(i as int));
            proof {
                assert(self.entities@.take(i as int + 1).drop_last() =~= self.entities@.take(i as int));
                reveal_with_fuel(Seq::<EntityID>::filter, 1);
                assert(before.push(i).drop_last() =~= before);
            }
            let occupied = match &self.entities.entity_info[i] {
                Some(_) => true,
                None => false,
            };
            if occupied && self.has_component_immut(i, key) {
                pih.push(i);
            }
            i = i + 1;
        }
        proof {
            assert(self.entities@.take(i as int) =~= self.entities@);
            law_entities_with_exact(*self, key);
        }
        pih
    }

    /// The live entity with the highest id that has a component of kind
    /// `key`, if any.
    pub fn last_entity_with(&self, key: TypeKey) -> (res: Option<EntityID>)
        ensures
            res == (if self.ids_with(key).len() == 0 {
                None
            } else {
                Some(self.ids_with(key).last())
            }),            match res {
                Some(id) => self.spec_has_component(id as int, key) && forall|other: EntityID|
                    #[trigger] self.spec_has_component(other as int, key) ==> other <= id,
                None => forall|other: EntityID| !#[trigger] self.spec_has_component(other as int, key),
            },
    {
        let ids = self.entities_with(key);
        proof {
            if ids@.len() > 0 {
                assert(ids@.contains(ids@.last()));
                assert forall|other: EntityID| #[trigger] self.spec_has_component(other as int, key) implies other
                    <= ids@.last() by {
                    assert(ids@.contains(other));
                    let k = choose|k: int| 0 <= k < ids@.len() && ids@[k] == other;
                    if k < ids@.len() - 1 {
                        assert(ids@[k] < ids@[ids@.len() - 1]);
                    }
                }
            } else {
                assert forall|other: EntityID| !#[trigger] self.spec_has_component(other as int, key) by {
                    if self.spec_has_component(other as int, key) {
                        assert(ids@.contains(other));
                    }
                }
            }
        }
        if ids.len() == 0 {
            None
        } else {
            Some(ids[ids.len() - 1])
        }
    }

    /// The ids of all occupied slots, in increasing order.
    pub fn iter_over_alive_entity_ids(&self) -> (res: Vec<EntityID>)
        ensures
            res@ == occupied_ids(self.entities@),
    {
        let mut pih: Vec<EntityID> = Vec::new();
        let mut i: usize = 0;
        while i < self.entities.entity_info.len()
            invariant
                0 <= i <= self.entities@.len(),
                pih@ == occupied_ids(self.entities@.take(i as int)),
            decreases self.entities@.len() - i,
        {
            proof {
                assert(self.entities@.take(i as int + 1).drop_last() =~= self.entities@.take(i as int));
            }
            match &self.entities.entity_info[i] {
                Some(_) => pih.push(i),
                None => (),
            }
            i = i + 1;
        }
        proof {
            assert(self.entities@.take(i as int) =~= self.entities@);
        }
        pih
    }
}

/// `first_free_slot` is the first free slot when there is one below `i`
/// past occupied slots, and the end of the table when all are occupied.
pub proof fn lemma_first_free_slot(info: Seq<Option<Sigtype>>, i: int)
    requires
        0 <= i <= info.len(),
        forall|j: int| 0 <= j < i ==> info[j] is Some,
        i < info.len() ==> info[i] is None,
    ensures
        first_free_slot(info) == i,
    decreases info.len(),
{
    if info.len() == 0 {
    } else {
        let p = info.drop_last();
        if i < info.len() - 1 {
            lemma_first_free_slot(p, i);
        } else {
            lemma_first_free_slot(p, p.len() as int);
        }
    }
}

} // verus!
