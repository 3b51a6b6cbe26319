//! Agreement between entity signatures and component slots, and how each
//! change the world makes keeps it.
use vstd::prelude::*;

use crate::components::{sig_bit, Components, LINE_CAPACITY};
use crate::entities::{EntityID, Sigtype, TypeKey};
use crate::line::{entries_set, entries_slot, lemma_entries_set_wf};
use crate::signature::{
    lemma_below, lemma_below_grow, lemma_zero_below, lemma_other_bits, lemma_registered_bit, lemma_same_bit, sig_below, sig_has,
};

verus! {

/// Whether entity `e`'s slot in the line of kind `k` agrees with its
/// signature: for a live slot, the value is there exactly when the kind's bit
/// is; a free slot, or an id past the table, has no value.
pub open spec fn slot_agrees(info: Seq<Option<Sigtype>>, c: Components, e: EntityID, k: TypeKey) -> bool {
    if e < info.len() && info[e as int] is Some {
        sig_has(info[e as int].unwrap(), c.type_to_sig@[k]) <==> c.slot(k, e) is Some
    } else {
        c.slot(k, e) is None
    }
}

/// Signatures and component slots agree for every entity and registered
/// kind, and every signature holds only bits that have been handed out.
pub open spec fn world_consistent(info: Seq<Option<Sigtype>>, c: Components) -> bool {
    &&& forall|e: EntityID, k: TypeKey| c.is_registered(k) ==> #[trigger] slot_agrees(info, c, e, k)
    &&& forall|i: int|
        0 <= i < info.len() && info[i] is Some ==> sig_below(#[trigger] info[i].unwrap(), c.sig_offset as int)
}

/// An empty world is consistent.
pub proof fn lemma_empty_consistent(c: Components)
    requires
        c.wf(),
        c.sig_offset == 0,
    ensures
        world_consistent(Seq::empty(), c),
{
    assert forall|e: EntityID, k: TypeKey| c.is_registered(k) implies #[trigger] slot_agrees(
        Seq::empty(),
        c,
        e,
        k,
    ) by {
        lemma_registered_bit(c, k);
    }
}

/// Registering a new kind keeps the world consistent: its line is empty and
/// no signature holds its fresh bit.
pub proof fn lemma_register_consistent(info: Seq<Option<Sigtype>>, c: Components, c2: Components, key: TypeKey)
    requires
        c.wf(),
        c2.wf(),
        world_consistent(info, c),
        !c.is_registered(key),
        c2.sig_offset == c.sig_offset + 1,
        c2.type_to_sig@ == c.type_to_sig@.insert(key, sig_bit(c.sig_offset as int)),
        c2.line_of(key) == Seq::<(usize, Option<u64>)>::empty(),
        forall|k: TypeKey| k != key ==> #[trigger] c2.component_lines@.get(k) == c.component_lines@.get(k),
    ensures
        world_consistent(info, c2),
{
    let off = c.sig_offset;
    assert forall|e: EntityID, k: TypeKey| c2.is_registered(k) implies #[trigger] slot_agrees(info, c2, e, k) by {
        if k == key {
            assert(c2.slot(k, e) is None);
            if e < info.len() && info[e as int] is Some {
                let s = info[e as int].unwrap();
                assert(sig_below(s, off as int));
                lemma_below_grow(s, off as u128);
            }
        } else {
            assert(c.is_registered(k));
            assert(slot_agrees(info, c, e, k));
            assert(c.component_lines@.contains_key(k));
            assert(c2.component_lines@.get(k) == c.component_lines@.get(k));
            assert(c2.line_of(k) == c.line_of(k));
        }
    }
    assert forall|i: int| 0 <= i < info.len() && info[i] is Some implies sig_below(#[trigger] info[i].unwrap(), c2.sig_offset as int) by {
        lemma_below_grow(info[i].unwrap(), off as u128);
    }
}

/// Changing one entity's row keeps the world consistent when every other
/// entity's slots are as they were, the changed row agrees, and its
/// signature holds only handed-out bits.
pub proof fn lemma_row_consistent(
    info: Seq<Option<Sigtype>>,
    c: Components,
    info2: Seq<Option<Sigtype>>,
    c2: Components,
    e: EntityID,
)
    requires
        c.wf(),
        world_consistent(info, c),
        c2.type_to_sig@ == c.type_to_sig@,
        c2.sig_offset == c.sig_offset,
        e < info.len(),
        info2.len() == info.len(),
        forall|j: int| 0 <= j < info.len() && j != e ==> info2[j] == info[j],
        forall|k: TypeKey, e2: EntityID| c.is_registered(k) && e2 != e ==> #[trigger] c2.slot(k, e2) == c.slot(k, e2),
        forall|k: TypeKey| c.is_registered(k) ==> #[trigger] slot_agrees(info2, c2, e, k),
        info2[e as int] is Some ==> sig_below(info2[e as int].unwrap(), c.sig_offset as int),
    ensures
        world_consistent(info2, c2),
{
    assert forall|e2: EntityID, k: TypeKey| c2.is_registered(k) implies #[trigger] slot_agrees(info2, c2, e2, k) by {
        if e2 != e {
            assert(slot_agrees(info, c, e2, k));
            assert(c2.slot(k, e2) == c.slot(k, e2));
            if e2 < info.len() {
                assert(info2[e2 as int] == info[e2 as int]);
            }
        }
    }
    assert forall|i: int| 0 <= i < info2.len() && info2[i] is Some implies sig_below(#[trigger] info2[i].unwrap(), c2.sig_offset as int) by {
        if i != e {
            assert(info2[i] == info[i]);
        }
    }
}

/// Storing for entity `e` in the line of `key` leaves every other entity's
/// slot in every registered line as it was.
pub proof fn lemma_store_keeps_others(c: Components, c2: Components, key: TypeKey, e: EntityID, v: Option<u64>)
    requires
        c.wf(),
        c.is_registered(key),
        e < LINE_CAPACITY,
        c2.line_of(key) == entries_set(c.line_of(key), e, v),
        forall|k: TypeKey| k != key ==> #[trigger] c2.component_lines@.get(k) == c.component_lines@.get(k),
    ensures
        forall|k: TypeKey, e2: EntityID| c.is_registered(k) && e2 != e ==> #[trigger] c2.slot(k, e2) == c.slot(k, e2),
        c2.slot(key, e) == v,
        forall|k: TypeKey| c.is_registered(k) && k != key ==> #[trigger] c2.slot(k, e) == c.slot(k, e),
{
    assert(c.component_lines@.contains_key(key));
    lemma_entries_set_wf(c.line_of(key), LINE_CAPACITY as nat, e, v);
    assert forall|k: TypeKey, e2: EntityID| c.is_registered(k) && e2 != e implies #[trigger] c2.slot(k, e2) == c.slot(k, e2) by {
        if k != key {
            assert(c.component_lines@.contains_key(k));
            assert(c2.component_lines@.get(k) == c.component_lines@.get(k));
            assert(c2.line_of(k) == c.line_of(k));
        }
    }
    assert forall|k: TypeKey| c.is_registered(k) && k != key implies #[trigger] c2.slot(k, e) == c.slot(k, e) by {
        assert(c.component_lines@.contains_key(k));
        assert(c2.component_lines@.get(k) == c.component_lines@.get(k));
        assert(c2.line_of(k) == c.line_of(k));
    }
}

/// The empty signature holds no registered kind's bit and no bit at all.
proof fn lemma_empty_sig(c: Components, k: TypeKey)
    requires
        c.wf(),
        c.is_registered(k),
    ensures
        !sig_has(0u128, c.type_to_sig@[k]),
        sig_below(0u128, c.sig_offset as int),
{
    let j = lemma_registered_bit(c, k);
    let other: u128 = if j == 0 { 1 } else { 0 };
    lemma_other_bits(0u128, other, j as u128);
    lemma_zero_below(c.sig_offset as u128);
}

/// Spawning, into a free slot or a new one, keeps the world consistent: the
/// new entity has the empty signature and no component values.
pub proof fn lemma_spawn_consistent(
    info: Seq<Option<Sigtype>>,
    c: Components,
    id: EntityID,
    info2: Seq<Option<Sigtype>>,
)
    requires
        c.wf(),
        world_consistent(info, c),
        id <= info.len(),
        id < info.len() ==> info[id as int] is None,
        info2 == (if id < info.len() {
            info.update(id as int, Some(0u128))
        } else {
            info.push(Some(0u128))
        }),
    ensures
        world_consistent(info2, c),
{
    assert forall|e2: EntityID, k: TypeKey| c.is_registered(k) implies #[trigger] slot_agrees(info2, c, e2, k) by {
        assert(slot_agrees(info, c, e2, k));
        if e2 == id {
            lemma_empty_sig(c, k);
        } else if e2 < info.len() {
            assert(info2[e2 as int] == info[e2 as int]);
        }
    }
    assert forall|i: int| 0 <= i < info2.len() && info2[i] is Some implies sig_below(#[trigger] info2[i].unwrap(), c.sig_offset as int) by {
        if i == id {
            lemma_zero_below(c.sig_offset as u128);
        } else {
            assert(info2[i] == info[i]);
        }
    }
}

/// Attaching a value of kind `key` to a slot keeps the world consistent.
pub proof fn lemma_attach_consistent(
    info: Seq<Option<Sigtype>>,
    c: Components,
    info2: Seq<Option<Sigtype>>,
    c2: Components,
    e: EntityID,
    key: TypeKey,
    v: u64,
)
    requires
        c.wf(),
        c.is_registered(key),
        world_consistent(info, c),
        e < info.len(),
        e < LINE_CAPACITY,
        info2 == info.update(
            e as int,
            Some(
                match info[e as int] {
                    Some(s) => s | c.type_to_sig@[key],
                    None => c.type_to_sig@[key],
                },
            ),
        ),
        c2.type_to_sig@ == c.type_to_sig@,
        c2.sig_offset == c.sig_offset,
        c2.line_of(key) == entries_set(c.line_of(key), e, Some(v)),
        forall|k: TypeKey| k != key ==> #[trigger] c2.component_lines@.get(k) == c.component_lines@.get(k),
    ensures
        world_consistent(info2, c2),
{
    lemma_store_keeps_others(c, c2, key, e, Some(v));
    let i = lemma_registered_bit(c, key);
    assert forall|k: TypeKey| c.is_registered(k) implies #[trigger] slot_agrees(info2, c2, e, k) by {
        assert(slot_agrees(info, c, e, k));
        if k == key {
            match info[e as int] {
                Some(s) => lemma_same_bit(s, i as u128),
                None => lemma_same_bit(0u128, i as u128),
            }
        } else {
            let j = lemma_registered_bit(c, k);
            assert(i != j);
            match info[e as int] {
                Some(s) => lemma_other_bits(s, i as u128, j as u128),
                None => lemma_other_bits(0u128, i as u128, j as u128),
            }
            assert(c2.slot(k, e) == c.slot(k, e));
        }
    }
    match info[e as int] {
        Some(s) => {
            assert(sig_below(info[e as int].unwrap(), c.sig_offset as int));
            lemma_below(s, i as u128, c.sig_offset as u128);
        },
        None => {
            lemma_zero_below(c.sig_offset as u128);
            lemma_below(0u128, i as u128, c.sig_offset as u128);
        },
    }
    lemma_row_consistent(info, c, info2, c2, e);
}

/// Popping the value of kind `key` from a slot that holds one keeps the
/// world consistent.
pub proof fn lemma_pop_consistent(
    info: Seq<Option<Sigtype>>,
    c: Components,
    info2: Seq<Option<Sigtype>>,
    c2: Components,
    e: EntityID,
    key: TypeKey,
)
    requires
        c.wf(),
        c.is_registered(key),
        world_consistent(info, c),
        e < info.len(),
        e < LINE_CAPACITY,
        c.slot(key, e) is Some,
        info2 == info.update(
            e as int,
            Some(
                match info[e as int] {
                    Some(s) => s ^ c.type_to_sig@[key],
                    None => 0u128,
                },
            ),
        ),
        c2.type_to_sig@ == c.type_to_sig@,
        c2.sig_offset == c.sig_offset,
        c2.line_of(key) == entries_set(c.line_of(key), e, None),
        forall|k: TypeKey| k != key ==> #[trigger] c2.component_lines@.get(k) == c.component_lines@.get(k),
    ensures
        world_consistent(info2, c2),
{
    lemma_store_keeps_others(c, c2, key, e, None);
    let i = lemma_registered_bit(c, key);
    assert(slot_agrees(info, c, e, key));
    assert(info[e as int] is Some);
    let s = info[e as int].unwrap();
    assert(sig_has(s, sig_bit(i)));
    assert forall|k: TypeKey| c.is_registered(k) implies #[trigger] slot_agrees(info2, c2, e, k) by {
        assert(slot_agrees(info, c, e, k));
        if k == key {
            lemma_same_bit(s, i as u128);
        } else {
            let j = lemma_registered_bit(c, k);
            assert(i != j);
            lemma_other_bits(s, i as u128, j as u128);
            assert(c2.slot(k, e) == c.slot(k, e));
        }
    }
    lemma_below(s, i as u128, c.sig_offset as u128);
    lemma_row_consistent(info, c, info2, c2, e);
}

/// Freeing a slot and clearing it in every line keeps the world consistent.
pub proof fn lemma_despawn_consistent(
    info: Seq<Option<Sigtype>>,
    c: Components,
    info2: Seq<Option<Sigtype>>,
    c2: Components,
    e: EntityID,
)
    requires
        c.wf(),
        world_consistent(info, c),
        e < info.len(),
        c.sig_offset == 0 || e < LINE_CAPACITY,
        info2 == info.update(e as int, None),
        c2.type_to_sig@ == c.type_to_sig@,
        c2.sig_offset == c.sig_offset,
        forall|k: TypeKey| #[trigger] c.is_registered(k) ==> c2.line_of(k) == entries_set(c.line_of(k), e, None),
    ensures
        world_consistent(info2, c2),
{
    assert forall|k: TypeKey, e2: EntityID| c.is_registered(k) && e2 != e implies #[trigger] c2.slot(k, e2) == c.slot(k, e2) by {
        lemma_registered_bit(c, k);
        assert(c.component_lines@.contains_key(k));
        lemma_entries_set_wf(c.line_of(k), LINE_CAPACITY as nat, e, None);
    }
    assert forall|k: TypeKey| c.is_registered(k) implies #[trigger] slot_agrees(info2, c2, e, k) by {
        lemma_registered_bit(c, k);
        assert(c.component_lines@.contains_key(k));
        lemma_entries_set_wf(c.line_of(k), LINE_CAPACITY as nat, e, None);
    }
    lemma_row_consistent(info, c, info2, c2, e);
}

/// Overwriting the slot of `e` in the line of `key` with a value exactly
/// when it held one keeps the world consistent.
pub proof fn lemma_write_consistent(
    info: Seq<Option<Sigtype>>,
    c: Components,
    c2: Components,
    e: EntityID,
    key: TypeKey,
    v: Option<u64>,
)
    requires
        c.wf(),
        c.is_registered(key),
        e < LINE_CAPACITY,
        world_consistent(info, c),
        c2.type_to_sig@ == c.type_to_sig@,
        c2.sig_offset == c.sig_offset,
        forall|k: TypeKey| k != key ==> #[trigger] c2.component_lines@.get(k) == c.component_lines@.get(k),
        c2.line_of(key) == entries_set(c.line_of(key), e, v),
        v is Some <==> c.slot(key, e) is Some,
    ensures
        world_consistent(info, c2),
{
    lemma_store_keeps_others(c, c2, key, e, v);
    assert forall|e2: EntityID, k: TypeKey| c2.is_registered(k) implies #[trigger] slot_agrees(info, c2, e2, k) by {
        assert(slot_agrees(info, c, e2, k));
    }
}

/// A world whose lines all stay as they were stays consistent.
pub proof fn lemma_lines_kept_consistent(info: Seq<Option<Sigtype>>, c: Components, c2: Components, key: TypeKey)
    requires
        c.wf(),
        world_consistent(info, c),
        c2.type_to_sig@ == c.type_to_sig@,
        c2.sig_offset == c.sig_offset,
        forall|k: TypeKey| k != key ==> #[trigger] c2.component_lines@.get(k) == c.component_lines@.get(k),
        c2.line_of(key) == c.line_of(key),
    ensures
        world_consistent(info, c2),
{
    assert forall|e2: EntityID, k: TypeKey| c2.is_registered(k) implies #[trigger] slot_agrees(info, c2, e2, k) by {
        assert(slot_agrees(info, c, e2, k));
        if k != key {
            assert(c.component_lines@.contains_key(k));
            assert(c2.component_lines@.get(k) == c.component_lines@.get(k));
            assert(c2.line_of(k) == c.line_of(k));
        }
    }
}

} // verus!
