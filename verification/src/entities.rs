use vstd::prelude::*;

verus! {

/// A bit set with one bit per registered component kind.
pub type Sigtype = u128;

/// Index of an entity slot.
pub type EntityID = usize;

/// The identity of a kind of component, resource or event: each kind of
/// value the library keys by type is given a distinct number by its user.
pub type TypeKey = u64;

/// The slot table of all entities: `None` marks a free slot, `Some(sig)` a
/// live entity whose components are the bits of `sig`.
pub struct Entities {
    pub entity_info: Vec<Option<Sigtype>>,
}

/// Liveness as the slot table reports it: slot `0` counts whenever the table
/// is non-empty, any other slot only when it is not the last one, and in
/// either case only when the slot is occupied.
pub open spec fn spec_is_alive(info: Seq<Option<Sigtype>>, entity_id: int) -> bool {
    &&& (if info.len() > 0 && entity_id == 0 {
        true
    } else {
        entity_id + 1 < info.len()
    })
    &&& info[entity_id] is Some
}

/// The signature an entity reports: its slot's contents when it is alive.
pub open spec fn spec_entity_signature(info: Seq<Option<Sigtype>>, entity_id: int) -> Option<Sigtype> {
    if spec_is_alive(info, entity_id) {
        info[entity_id]
    } else {
        None
    }
}

impl View for Entities {
    type V = Seq<Option<Sigtype>>;

    open spec fn view(&self) -> Seq<Option<Sigtype>> {
        self.entity_info@
    }
}

impl Entities {
    /// An empty slot table.
    pub fn new() -> (res: Self)
        ensures
            res@ == Seq::<Option<Sigtype>>::empty(),
    {
        Self { entity_info: Vec::new() }
    }

    /// Whether `entity_id` names a live entity (see [`spec_is_alive`]).
    pub fn is_alive(&self, entity_id: EntityID) -> (res: bool)
        requires
            entity_id < usize::MAX,
        ensures
            res == spec_is_alive(self@, entity_id as int),
            res == (entity_id < self@.len() && self@[entity_id as int] is Some && (entity_id == 0
                || entity_id + 1 < self@.len())),
    {
        if self.entity_info.len() > 0 && (entity_id == 0) {
        } else if self.entity_info.len() <= entity_id + 1 {
            return false;
        }
        match &self.entity_info[entity_id] {
            Some(_) => true,
            None => false,
        }
    }

    /// The component signature of a live entity, `None` for any other id.
    pub fn get_entity_signature(&self, entity_id: EntityID) -> (res: Option<Sigtype>)
        requires
            entity_id < usize::MAX,
        ensures
            res == spec_entity_signature(self@, entity_id as int),
    {
        if !self.is_alive(entity_id) {
            return None;
        }
        self.entity_info[entity_id]
    }
}

} // verus!
