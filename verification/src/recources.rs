//! Resources: at most one value per resource kind.
use std::collections::hash_map::Entry;
use std::collections::HashMap;
use vstd::prelude::*;

use crate::entities::TypeKey;

verus! {

broadcast use {
    vstd::std_specs::hash::group_hash_axioms,
    vstd::std_specs::hash::axiom_has_resolved_entry,
};

/// A store holding at most one resource of each kind.
pub struct Recources<R> {
    pub recourses: HashMap<TypeKey, R>,
}

impl<R> View for Recources<R> {
    type V = Map<TypeKey, R>;

    open spec fn view(&self) -> Map<TypeKey, R> {
        self.recourses@
    }
}

impl<R> Recources<R> {
    /// An empty store.
    pub fn new() -> (res: Self)
        ensures
            res@ == Map::<TypeKey, R>::empty(),
    {
        Self { recourses: HashMap::new() }
    }

    /// Stores `recource` as the resource of kind `key`, replacing any earlier one.
    pub fn insert_recource(&mut self, key: TypeKey, recource: R)
        ensures
            final(self)@ == old(self)@.insert(key, recource),
    {
        self.recourses.insert(key, recource);
    }

    /// Whether a resource of kind `key` is stored.
    pub fn has_recource(&self, key: TypeKey) -> (res: bool)
        ensures
            res == self@.contains_key(key),
    {
        self.recourses.contains_key(&key)
    }

    /// Takes the resource of kind `key` out of the store.
    pub fn pop_recource(&mut self, key: TypeKey) -> (res: Option<R>)
        ensures
            res == old(self)@.get(key),
            final(self)@ == old(self)@.remove(key),
    {
        if self.recourses.contains_key(&key) != true {
            assert(old(self)@.remove(key) =~= old(self)@);
            return None;
        }
        let recource = self.recourses.remove(&key).unwrap();
        Some(recource)
    }

    /// The resource of kind `key`, if one is stored.
    pub fn get_recource_ref(&self, key: TypeKey) -> (res: Option<&R>)
        ensures
            match res {
                Some(r) => self@.contains_key(key) && *r == self@[key],
                None => !self@.contains_key(key),
            },
    {
        if !self.has_recource(key) {
            return None;
        }
        self.recourses.get(&key)
    }

    /// Mutable access to the resource of kind `key`, if one is stored; what
    /// is written through it becomes that resource.
    pub fn get_recource_mut(&mut self, key: TypeKey) -> (res: Option<&mut R>)
        ensures
            match res {
                Some(r) => {
                    &&& old(self)@.contains_key(key)
                    &&& *r == old(self)@[key]
                    &&& final(self)@ == old(self)@.insert(key, *final(r))
                },
                None => {
                    &&& !old(self)@.contains_key(key)
                    &&& final(self)@ == old(self)@
                },
            },
    {
        if !self.has_recource(key) {
            return None;
        }
        match self.recourses.entry(key) {
            Entry::Occupied(entry) => Some(entry.into_mut()),
            Entry::Vacant(_) => None,
        }
    }
}

} // verus!
