//! Component storage: each registered component kind owns one signature bit
//! and one component line holding a slot per entity id.
use std::collections::HashMap;
use vstd::prelude::*;

use crate::entities::{EntityID, Sigtype, TypeKey};
use crate::line::{
    entries_set, entries_slot, lemma_entries_set_wf, line_capacity, line_entries, line_insert, line_len, line_entry_value,
    line_with_capacity, line_wf, ComponentLine,
};

verus! {

broadcast use vstd::std_specs::hash::group_hash_axioms;

/// How many component kinds a signature has bits for.
pub const SIG_BITS: usize = 128;

/// The key bound of every component line.
pub const LINE_CAPACITY: usize = 0xFFF;

/// The signature bit of the `i`-th registered component kind.
pub open spec fn sig_bit(i: int) -> Sigtype {
    1u128 << (i as u128)
}

/// Distinct positions have distinct signature bits.
pub proof fn lemma_sig_bits_distinct(i: u128, j: u128)
    requires
        i < 128,
        j < 128,
        i != j,
    ensures
        (1u128 << i) != (1u128 << j),
{
    assert((1u128 << i) != (1u128 << j)) by (bit_vector)
        requires
            i < 128,
            j < 128,
            i != j,
    ;
}

/// What the library keeps about a registered component kind: the component
/// line whose slot is cleared to drop a component of that kind.
#[derive(Clone, Copy)]
pub struct ComponentData {
    pub dealloc_line: TypeKey,
}

impl ComponentData {
    pub(crate) fn new(dealloc_line: TypeKey) -> (res: Self)
        ensures
            res.dealloc_line == dealloc_line,
    {
        Self { dealloc_line }
    }
}

/// All component lines, with the bookkeeping that maps each component kind
/// to its signature bit and back.
pub struct Components {
    pub component_lines: HashMap<TypeKey, ComponentLine>,
    pub type_to_sig: HashMap<TypeKey, Sigtype>,
    pub sig_to_type: HashMap<Sigtype, TypeKey>,
    pub sig_to_data: HashMap<Sigtype, ComponentData>,
    pub sig_offset: usize,
    /// The component kinds in the order they were registered; the `i`-th
    /// owns signature bit `i`.
    pub registered: Ghost<Seq<TypeKey>>,
}

impl Components {
    /// Whether `key` has been given a signature bit and a line.
    pub open spec fn is_registered(&self, key: TypeKey) -> bool {
        self.type_to_sig@.contains_key(key)
    }

    /// The dense entries of the line of `key`.
    pub open spec fn line_of(&self, key: TypeKey) -> Seq<(usize, Option<u64>)> {
        line_entries(self.component_lines@[key])
    }

    /// The value stored for `entity_id` in the line of `key`.
    pub open spec fn slot(&self, key: TypeKey, entity_id: EntityID) -> Option<u64> {
        entries_slot(self.line_of(key), entity_id)
    }

    /// The line of `key` as registration leaves it: its current entries when
    /// `key` is registered, no entries otherwise.
    pub open spec fn line_or_empty(&self, key: TypeKey) -> Seq<(usize, Option<u64>)> {
        if self.is_registered(key) {
            self.line_of(key)
        } else {
            Seq::empty()
        }
    }

    /// The signature bit `key` has once registered: its present bit, or the
    /// next free one.
    pub open spec fn sig_after_register(&self, key: TypeKey) -> Sigtype {
        if self.is_registered(key) {
            self.type_to_sig@[key]
        } else {
            sig_bit(self.sig_offset as int)
        }
    }

    /// The bookkeeping invariant: the `i`-th registered kind owns bit `i` in
    /// both directions, its data names its own line, every registered kind
    /// has a well-formed line of the common capacity, and nothing else is
    /// registered.
    pub open spec fn wf(&self) -> bool {
        let reg = self.registered@;
        &&& reg.len() == self.sig_offset
        &&& self.sig_offset <= SIG_BITS
        &&& forall|i: int|
            0 <= i < reg.len() ==> {
                &&& self.type_to_sig@.contains_key(#[trigger] reg[i])
                &&& self.type_to_sig@[reg[i]] == sig_bit(i)
                &&& self.sig_to_type@.contains_key(sig_bit(i))
                &&& self.sig_to_type@[sig_bit(i)] == reg[i]
                &&& self.sig_to_data@.contains_key(sig_bit(i))
                &&& self.sig_to_data@[sig_bit(i)].dealloc_line == reg[i]
            }
        &&& forall|k: TypeKey| #[trigger] self.type_to_sig@.contains_key(k) ==> reg.contains(k)
        &&& forall|s: Sigtype|
            #[trigger] self.sig_to_type@.contains_key(s) ==> exists|i: int|
                0 <= i < reg.len() && s == #[trigger] sig_bit(i)
        &&& forall|s: Sigtype|
            #[trigger] self.sig_to_data@.contains_key(s) ==> exists|i: int|
                0 <= i < reg.len() && s == #[trigger] sig_bit(i)
        &&& forall|k: TypeKey|
            #[trigger] self.component_lines@.contains_key(k) <==> self.type_to_sig@.contains_key(k)
        &&& forall|k: TypeKey|
            #[trigger] self.component_lines@.contains_key(k) ==> {
                &&& line_wf(self.component_lines@[k])
                &&& line_capacity(self.component_lines@[k]) == LINE_CAPACITY
            }
    }

    /// No component kind registered.
    pub fn new() -> (res: Self)
        ensures
            res.wf(),
            res.sig_offset == 0,
            res.registered@ == Seq::<TypeKey>::empty(),
            res.type_to_sig@ == Map::<TypeKey, Sigtype>::empty(),
            res.component_lines@ == Map::<TypeKey, ComponentLine>::empty(),
    {
        Self {
            component_lines: HashMap::new(),
            type_to_sig: HashMap::new(),
            sig_to_type: HashMap::new(),
            sig_to_data: HashMap::new(),
            sig_offset: 0,
            registered: Ghost(Seq::empty()),
        }
    }

    /// Registers component kind `key` if it is new: it gets the next
    /// signature bit, its data, and an empty line of [`LINE_CAPACITY`] slots.
    /// A kind that is already registered leaves everything as it was.
    pub fn initialize_component(&mut self, key: TypeKey)
        requires
            old(self).wf(),
            old(self).is_registered(key) || old(self).sig_offset < SIG_BITS,
        ensures
            final(self).wf(),
            old(self).is_registered(key) ==> *final(self) == *old(self),
            !old(self).is_registered(key) ==> {
                &&& final(self).sig_offset == old(self).sig_offset + 1
                &&& final(self).registered@ == old(self).registered@.push(key)
                &&& final(self).type_to_sig@ == old(self).type_to_sig@.insert(
                    key,
                    sig_bit(old(self).sig_offset as int),
                )
                &&& final(self).component_lines@.dom() == old(self).component_lines@.dom().insert(key)
                &&& final(self).line_of(key) == Seq::<(usize, Option<u64>)>::empty()
                &&& forall|k: TypeKey| k != key ==> #[trigger] final(self).component_lines@.get(k)
                    == old(self).component_lines@.get(k)
            },
    {
        if self.type_to_sig.contains_key(&key) {
            return;
        }
        let ghost old_self = *self;
        let off = self.sig_offset;
        let sig: Sigtype = 1u128 << (off as u128);
        proof {
            assert forall|i: int| 0 <= i < old_self.registered@.len() implies sig_bit(i) != sig by {
                lemma_sig_bits_distinct(i as u128, off as u128);
            }
        }
        self.sig_offset = off + 1;
        self.sig_to_type.insert(sig, key);
        self.type_to_sig.insert(key, sig);
        self.sig_to_data.insert(sig, ComponentData::new(key));
        let component_line = line_with_capacity(LINE_CAPACITY);
        self.component_lines.insert(key, component_line);
        self.registered = Ghost(old_self.registered@.push(key));
        proof {
            let reg = self.registered@;
            assert(reg[off as int] == key);
            assert forall|i: int| 0 <= i < reg.len() implies {
                &&& self.type_to_sig@.contains_key(#[trigger] reg[i])
                &&& self.type_to_sig@[reg[i]] == sig_bit(i)
                &&& self.sig_to_type@.contains_key(sig_bit(i))
                &&& self.sig_to_type@[sig_bit(i)] == reg[i]
                &&& self.sig_to_data@.contains_key(sig_bit(i))
                &&& self.sig_to_data@[sig_bit(i)].dealloc_line == reg[i]
            } by {
                if i < off {
                    assert(reg[i] == old_self.registered@[i]);
                    assert(old_self.type_to_sig@.contains_key(reg[i]));
                    assert(reg[i] != key);
                }
            }
            assert forall|k: TypeKey| #[trigger] self.type_to_sig@.contains_key(k) implies reg.contains(k) by {
                if k == key {
                    assert(reg[off as int] == key);
                } else {
                    assert(old_self.registered@.contains(k));
                    let j = choose|j: int| 0 <= j < old_self.registered@.len() && old_self.registered@[j] == k;
                    assert(reg[j] == k);
                }
            }
            assert forall|s: Sigtype| #[trigger] self.sig_to_type@.contains_key(s) implies exists|i: int|
                0 <= i < reg.len() && s == #[trigger] sig_bit(i) by {
                if s == sig {
                    assert(s == sig_bit(off as int));
                } else {
                    assert(old_self.sig_to_type@.contains_key(s));
                }
            }
            assert forall|s: Sigtype| #[trigger] self.sig_to_data@.contains_key(s) implies exists|i: int|
                0 <= i < reg.len() && s == #[trigger] sig_bit(i) by {
                if s == sig {
                    assert(s == sig_bit(off as int));
                } else {
                    assert(old_self.sig_to_data@.contains_key(s));
                }
            }
            assert(self.component_lines@.dom() =~= old_self.component_lines@.dom().insert(key));
        }
    }

    /// Stores `value` in the slot of `entity_id` in the line of `key`, as
    /// `SparseSet::insert` does.
    pub(crate) fn line_store(&mut self, key: TypeKey, entity_id: EntityID, value: Option<u64>)
        requires
            old(self).wf(),
            old(self).is_registered(key),
            entity_id < LINE_CAPACITY,
        ensures
            final(self).wf(),
            final(self).type_to_sig == old(self).type_to_sig,
            final(self).sig_to_type == old(self).sig_to_type,
            final(self).sig_to_data == old(self).sig_to_data,
            final(self).sig_offset == old(self).sig_offset,
            final(self).registered == old(self).registered,
            final(self).component_lines@.dom() == old(self).component_lines@.dom(),
            final(self).line_of(key) == entries_set(old(self).line_of(key), entity_id, value),
            forall|k: TypeKey| k != key ==> #[trigger] final(self).component_lines@.get(k)
                == old(self).component_lines@.get(k),
    {
        let ghost old_self = *self;
        let mut line = self.component_lines.remove(&key).unwrap();
        proof {
            lemma_entries_set_wf(line_entries(line), line_capacity(line), entity_id, value);
        }
        line_insert(&mut line, entity_id, value);
        self.component_lines.insert(key, line);
        proof {
            assert(self.component_lines@.dom() =~= old_self.component_lines@.dom());
        }
    }

    /// Puts `component` into the slot of `entity_id` in the line of kind
    /// `key`, registering the kind first when it is new.
    pub fn insert_component(&mut self, component: u64, key: TypeKey, entity_id: EntityID)
        requires
            old(self).wf(),
            old(self).is_registered(key) || old(self).sig_offset < SIG_BITS,
            entity_id < LINE_CAPACITY,
        ensures
            final(self).wf(),
            final(self).is_registered(key),
            final(self).line_of(key) == entries_set(
                (if old(self).is_registered(key) {
                    old(self).line_of(key)
                } else {
                    Seq::empty()
                }),
                entity_id,
                Some(component),
            ),
            forall|k: TypeKey| k != key ==> #[trigger] final(self).component_lines@.get(k)
                == old(self).component_lines@.get(k),
            forall|k: TypeKey| k != key ==> #[trigger] final(self).type_to_sig@.get(k)
                == old(self).type_to_sig@.get(k),
            old(self).is_registered(key) ==> final(self).type_to_sig@ == old(self).type_to_sig@,
            old(self).is_registered(key) ==> final(self).sig_offset == old(self).sig_offset,
            !old(self).is_registered(key) ==> final(self).type_to_sig@ == old(self).type_to_sig@.insert(
                key,
                sig_bit(old(self).sig_offset as int),
            ),
            !old(self).is_registered(key) ==> final(self).sig_offset == old(self).sig_offset + 1,
    {
        self.initialize_component(key);
        let component_line = self.component_lines.get(&key).unwrap();
        let len = line_len(component_line);
        if len == entity_id {
            self.line_store(key, len, Some(component));
            return;
        }
        self.line_store(key, entity_id, Some(component));
    }

    /// The value at dense position `entity_id` of the line of kind `key`
    /// (the line indexed as the slice of its entries), `None` when the line
    /// has no entry at that position.
    pub fn pop_component(&self, key: TypeKey, entity_id: EntityID) -> (res: Option<u64>)
        requires
            self.wf(),
            self.is_registered(key),
            entity_id < usize::MAX,
        ensures
            entity_id >= self.line_of(key).len() ==> res is None,
            entity_id < self.line_of(key).len() ==> res == self.line_of(key)[entity_id as int].1,
    {
        let component_line = self.component_lines.get(&key).unwrap();
        if line_len(component_line) < entity_id + 1 {
            return None;
        }
        line_entry_value(component_line, entity_id)
    }

    /// Clears the slot of `entity_id` in every component line, each through
    /// the line its kind's data names.
    pub fn free_all_components_at_entity_id(&mut self, entity_id: EntityID)
        requires
            old(self).wf(),
            old(self).sig_offset == 0 || entity_id < LINE_CAPACITY,
        ensures
            final(self).wf(),
            final(self).type_to_sig == old(self).type_to_sig,
            final(self).sig_to_type == old(self).sig_to_type,
            final(self).sig_to_data == old(self).sig_to_data,
            final(self).sig_offset == old(self).sig_offset,
            final(self).registered == old(self).registered,
            final(self).component_lines@.dom() == old(self).component_lines@.dom(),
            forall|k: TypeKey| #[trigger] old(self).is_registered(k) ==> final(self).line_of(k)
                == entries_set(old(self).line_of(k), entity_id, None),
    {
        let ghost old_self = *self;
        let mut i: usize = 0;
        while i < self.sig_offset
            invariant
                self.wf(),
                0 <= i <= self.sig_offset,
                self.sig_offset == old_self.sig_offset,
                old_self.sig_offset == 0 || entity_id < LINE_CAPACITY,
                self.type_to_sig == old_self.type_to_sig,
                self.sig_to_type == old_self.sig_to_type,
                self.sig_to_data == old_self.sig_to_data,
                self.registered == old_self.registered,
                self.component_lines@.dom() == old_self.component_lines@.dom(),
                forall|j: int| 0 <= j < i ==> #[trigger] self.line_of(self.registered@[j])
                    == entries_set(old_self.line_of(self.registered@[j]), entity_id, None),
                forall|j: int| i <= j < self.registered@.len() ==> #[trigger] self.component_lines@.get(self.registered@[j])
                    == old_self.component_lines@.get(self.registered@[j]),
            decreases self.sig_offset - i,
        {
            let ghost before = *self;
            let sig: Sigtype = 1u128 << (i as u128);
            assert(sig == sig_bit(i as int));
            assert(self.type_to_sig@.contains_key(self.registered@[i as int]));
            let data = *self.sig_to_data.get(&sig).unwrap();
            let key = data.dealloc_line;
            assert(key == self.registered@[i as int]);
            self.line_store(key, entity_id, None);
            proof {
                let reg = self.registered@;
                assert forall|j: int| 0 <= j < i + 1 implies #[trigger] self.line_of(reg[j])
                    == entries_set(old_self.line_of(reg[j]), entity_id, None) by {
                    if j < i {
                        lemma_registered_distinct(before, j, i as int);
                        assert(self.component_lines@.get(reg[j]) == before.component_lines@.get(reg[j]));
                        assert(before.type_to_sig@.contains_key(reg[j]));
                        assert(before.component_lines@.contains_key(reg[j]));
                        assert(self.line_of(reg[j]) == before.line_of(reg[j]));
                        assert(before.line_of(before.registered@[j]) == entries_set(old_self.line_of(before.registered@[j]), entity_id, None));
                    } else {
                        assert(before.component_lines@.get(reg[j]) == old_self.component_lines@.get(reg[j]));
                        assert(old_self.component_lines@.contains_key(reg[j]));
                        assert(before.line_of(reg[j]) == old_self.line_of(reg[j]));
                    }
                }
                assert forall|j: int| i + 1 <= j < reg.len() implies #[trigger] self.component_lines@.get(reg[j])
                    == old_self.component_lines@.get(reg[j]) by {
                    lemma_registered_distinct(before, i as int, j);
                }
            }
            i = i + 1;
        }
        proof {
            assert forall|k: TypeKey| #[trigger] old_self.is_registered(k) implies self.line_of(k)
                == entries_set(old_self.line_of(k), entity_id, None) by {
                assert(old_self.registered@.contains(k));
                let j = choose|j: int| 0 <= j < old_self.registered@.len() && old_self.registered@[j] == k;
                assert(self.line_of(old_self.registered@[j]) == entries_set(old_self.line_of(old_self.registered@[j]), entity_id, None));
            }
        }
    }
}

/// Two registered kinds at different positions are different kinds.
pub proof fn lemma_registered_distinct(c: Components, i: int, j: int)
    requires
        c.wf(),
        0 <= i < j < c.registered@.len(),
    ensures
        c.registered@[i] != c.registered@[j],
{
    let reg = c.registered@;
    assert(c.type_to_sig@[reg[i]] == sig_bit(i));
    assert(c.type_to_sig@[reg[j]] == sig_bit(j));
    lemma_sig_bits_distinct(i as u128, j as u128);
}

} // verus!
