//! Properties of the library as a whole, stated over the models its
//! contracts use.
use vstd::prelude::*;

use crate::app::{dispatch_plan, event_keys, triggered_steps, DispatchStep, SystemId};
use crate::components::{lemma_registered_distinct, lemma_sig_bits_distinct, sig_bit, Components, SIG_BITS};
use crate::consistency::slot_agrees;
use crate::signature::lemma_same_bit;
use crate::keys::{last_recorded, replay};
use crate::ecs::{first_free_slot, occupied_ids, sig_has, ECS};
use crate::events::Event;
use crate::entities::{spec_is_alive, EntityID, Sigtype, TypeKey};
use crate::atlas::clamp_id;
use crate::line::{entries_set, entries_slot, entries_wf, lemma_entries_set_wf};

verus! {

/// A component line gives back what was last stored for an entity, and
/// storing for one entity leaves every other entity's slot as it was.
pub proof fn law_line_read_after_write(
    entries: Seq<(usize, Option<u64>)>,
    capacity: nat,
    entity_id: usize,
    value: Option<u64>,
    other: usize,
)
    requires
        entries_wf(entries, capacity),
        entity_id < capacity,
    ensures
        entries_slot(entries_set(entries, entity_id, value), entity_id) == value,
        other != entity_id ==> entries_slot(entries_set(entries, entity_id, value), other)
            == entries_slot(entries, other),
        entries_wf(entries_set(entries, entity_id, value), capacity),
{
    lemma_entries_set_wf(entries, capacity, entity_id, value);
}

/// Attaching a component gives the entity that component's bit, whatever
/// bits it had; popping a component the entity has takes the bit away.
pub proof fn law_signature_bits(entity_sig: Sigtype, i: u128)
    requires
        i < 128,
    ensures
        sig_has(entity_sig | sig_bit(i as int), sig_bit(i as int)),
        sig_has(sig_bit(i as int), sig_bit(i as int)),
        sig_has(entity_sig, sig_bit(i as int)) ==> !sig_has(
            entity_sig ^ sig_bit(i as int),
            sig_bit(i as int),
        ),
{
    lemma_same_bit(entity_sig, i);
}

/// Different registered component kinds own different signature bits, and
/// each bit leads back to its kind.
pub proof fn law_kinds_own_distinct_bits(c: Components, k1: TypeKey, k2: TypeKey)
    requires
        c.wf(),
        c.is_registered(k1),
        c.is_registered(k2),
    ensures
        c.sig_to_type@[c.type_to_sig@[k1]] == k1,
        k1 != k2 ==> c.type_to_sig@[k1] != c.type_to_sig@[k2],
{
    let reg = c.registered@;
    assert(reg.contains(k1));
    assert(reg.contains(k2));
    let i = choose|i: int| 0 <= i < reg.len() && reg[i] == k1;
    let j = choose|j: int| 0 <= j < reg.len() && reg[j] == k2;
    assert(c.type_to_sig@[reg[i]] == sig_bit(i));
    assert(c.type_to_sig@[reg[j]] == sig_bit(j));
    if k1 != k2 {
        assert(i != j);
        lemma_sig_bits_distinct(i as u128, j as u128);
    }
}

/// The number of registered component kinds is the number of signature bits
/// handed out, and never more than a signature has bits.
pub proof fn law_kind_count(c: Components)
    requires
        c.wf(),
    ensures
        c.type_to_sig@.len() == c.sig_offset,
        c.sig_offset <= SIG_BITS,
{
    let reg = c.registered@;
    assert forall|i: int, j: int| 0 <= i < reg.len() && 0 <= j < reg.len() && i != j implies reg[i]
        != reg[j] by {
        if i < j {
            lemma_registered_distinct(c, i, j);
        } else {
            lemma_registered_distinct(c, j, i);
        }
    }
    assert(reg.no_duplicates());
    reg.unique_seq_to_set();
    assert forall|k: TypeKey| #[trigger] reg.to_set().contains(k) implies c.type_to_sig@.dom().contains(k) by {
        let i = choose|i: int| 0 <= i < reg.len() && reg[i] == k;
        assert(c.type_to_sig@.contains_key(reg[i]));
    }
    assert(c.type_to_sig@.dom() =~= reg.to_set());
}

/// Spawning takes the lowest free slot, or the slot past the end when every
/// slot is occupied.
pub proof fn law_spawn_takes_lowest_free_slot(info: Seq<Option<Sigtype>>)
    ensures
        0 <= first_free_slot(info) <= info.len(),
        forall|j: int| 0 <= j < first_free_slot(info) ==> #[trigger] info[j] is Some,
        first_free_slot(info) < info.len() ==> info[first_free_slot(info)] is None,
    decreases info.len(),
{
    if info.len() > 0 {
        let p = info.drop_last();
        law_spawn_takes_lowest_free_slot(p);
        assert forall|j: int| 0 <= j < first_free_slot(info) implies #[trigger] info[j] is Some by {
            if j < p.len() {
                assert(info[j] == p[j]);
            }
        }
    }
}

/// A freshly spawned entity counts as alive except when it sits in the last
/// slot of the table and that slot is not slot `0`.
pub proof fn law_spawned_entity_liveness(info: Seq<Option<Sigtype>>)
    ensures
        ({
            let id = first_free_slot(info);
            let new_info = if id < info.len() {
                info.update(id, Some(0u128))
            } else {
                info.push(Some(0u128))
            };
            spec_is_alive(new_info, id) <==> (id == 0 || id + 1 < new_info.len())
        }),
{
    law_spawn_takes_lowest_free_slot(info);
}

/// The listed entity ids are exactly the occupied slots, in increasing order.
pub proof fn law_occupied_ids_exact(info: Seq<Option<Sigtype>>)
    requires
        info.len() <= usize::MAX,
    ensures
        forall|j: int| 0 <= j < info.len() ==> (info[j] is Some <==> occupied_ids(info).contains(
            j as EntityID,
        )),
        forall|a: int, b: int|
            0 <= a < b < occupied_ids(info).len() ==> occupied_ids(info)[a] < occupied_ids(info)[b],
        forall|a: int|
            0 <= a < occupied_ids(info).len() ==> occupied_ids(info)[a] < info.len(),
    decreases info.len(),
{
    if info.len() > 0 {
        let p = info.drop_last();
        law_occupied_ids_exact(p);
        let ids = occupied_ids(info);
        let pids = occupied_ids(p);
        let last = (info.len() - 1) as EntityID;
        assert(last == info.len() - 1);
        if info.last() is Some {
            assert(ids == pids.push(last));
        } else {
            assert(ids == pids);
        }
        assert forall|a: int| 0 <= a < ids.len() implies ids[a] < info.len() by {
            if a < pids.len() {
                assert(ids[a] == pids[a]);
            }
        }
        assert forall|a: int, b: int| 0 <= a < b < ids.len() implies ids[a] < ids[b] by {
            if b < pids.len() {
                assert(ids[a] == pids[a]);
                assert(ids[b] == pids[b]);
            } else {
                assert(ids[a] == pids[a]);
                assert(pids[a] < p.len());
            }
        }
        assert forall|j: int| 0 <= j < info.len() implies (info[j] is Some <==> ids.contains(
            j as EntityID,
        )) by {
            let je = j as EntityID;
            assert(je == j);
            if j < p.len() {
                assert(info[j] == p[j]);
                if pids.contains(je) {
                    let k = choose|k: int| 0 <= k < pids.len() && pids[k] == je;
                    assert(ids[k] == pids[k]);
                }
                if ids.contains(je) {
                    let k = choose|k: int| 0 <= k < ids.len() && ids[k] == je;
                    if k < pids.len() {
                        assert(pids[k] == ids[k]);
                    } else {
                        assert(ids[k] == last);
                    }
                }
            } else {
                assert(je == last);
                if info.last() is Some {
                    assert(ids[pids.len() as int] == je);
                } else {
                    if ids.contains(je) {
                        let k = choose|k: int| 0 <= k < ids.len() && ids[k] == je;
                        assert(pids[k] < p.len());
                    }
                }
            }
        }
    }
}

/// Systems triggered by an event kind run in the order they were added:
/// the run steps for `key` are the systems registered for `key`, in order.
pub proof fn law_systems_run_in_added_order(systems: Seq<(TypeKey, SystemId)>, key: TypeKey)
    ensures
        triggered_steps(systems, key) == systems.filter(|s: (TypeKey, SystemId)| s.0 == key).map_values(
            |s: (TypeKey, SystemId)| DispatchStep::RunSystem(s.1),
        ),
    decreases systems.len(),
{
    let pred = |s: (TypeKey, SystemId)| s.0 == key;
    let step = |s: (TypeKey, SystemId)| DispatchStep::RunSystem(s.1);
    reveal_with_fuel(Seq::<(TypeKey, SystemId)>::filter, 1);
    if systems.len() > 0 {
        law_systems_run_in_added_order(systems.drop_last(), key);
        if pred(systems.last()) {
            assert(systems.filter(pred) == systems.drop_last().filter(pred).push(systems.last()));
            assert(systems.filter(pred).map_values(step) =~= systems.drop_last().filter(pred).map_values(
                step,
            ).push(step(systems.last())));
        } else {
            assert(systems.filter(pred) == systems.drop_last().filter(pred));
        }
    } else {
        assert(systems.filter(pred) =~= Seq::<(TypeKey, SystemId)>::empty());
    }
}

/// Every queued event is retired exactly once, in queue order: the plan of
/// an update holds one `FinishEvent` per event, and a system added for a
/// kind runs once for each event of that kind.
pub proof fn law_plan_appends_per_event(
    keys: Seq<TypeKey>,
    systems: Seq<(TypeKey, SystemId)>,
    key: TypeKey,
)
    ensures
        dispatch_plan(keys.push(key), systems) == dispatch_plan(keys, systems) + triggered_steps(
            systems,
            key,
        ).push(DispatchStep::FinishEvent),
        dispatch_plan(seq![key], systems.push((key, 0usize))).last() == DispatchStep::FinishEvent,
{
    assert(keys.push(key).drop_last() =~= keys);
    assert(seq![key].drop_last() =~= Seq::<TypeKey>::empty());
}

/// The run steps of an event contain no retiring step.
proof fn lemma_triggered_steps_run_only(systems: Seq<(TypeKey, SystemId)>, key: TypeKey)
    ensures
        triggered_steps(systems, key).filter(|s: DispatchStep| s is FinishEvent).len() == 0,
    decreases systems.len(),
{
    reveal_with_fuel(Seq::<DispatchStep>::filter, 1);
    if systems.len() > 0 {
        lemma_triggered_steps_run_only(systems.drop_last(), key);
        let prefix = triggered_steps(systems.drop_last(), key);
        if systems.last().0 == key {
            assert(prefix.push(DispatchStep::RunSystem(systems.last().1)).drop_last() =~= prefix);
        }
    }
}

/// Every queued event is retired exactly once: an update's plan holds one
/// retiring step per queued event.
pub proof fn law_each_event_retired_once(keys: Seq<TypeKey>, systems: Seq<(TypeKey, SystemId)>)
    ensures
        dispatch_plan(keys, systems).filter(|s: DispatchStep| s is FinishEvent).len() == keys.len(),
    decreases keys.len(),
{
    let pred = |s: DispatchStep| s is FinishEvent;
    reveal_with_fuel(Seq::<DispatchStep>::filter, 1);
    if keys.len() > 0 {
        law_each_event_retired_once(keys.drop_last(), systems);
        let a = dispatch_plan(keys.drop_last(), systems);
        let t = triggered_steps(systems, keys.last());
        let b = t.push(DispatchStep::FinishEvent);
        lemma_triggered_steps_run_only(systems, keys.last());
        assert(b.drop_last() =~= t);
        assert(b.filter(pred) == t.filter(pred).push(DispatchStep::FinishEvent));
        Seq::filter_distributes_over_add(a, b, pred);
        assert(dispatch_plan(keys, systems) == a + b);
    }
}

/// A despawned entity is no longer alive and none of its component slots
/// holds a value.
pub proof fn law_despawned_entity_is_empty(
    info: Seq<Option<Sigtype>>,
    entity_id: usize,
    entries: Seq<(usize, Option<u64>)>,
    capacity: nat,
)
    requires
        entity_id < info.len(),
        entries_wf(entries, capacity),
        entity_id < capacity,
    ensures
        !spec_is_alive(info.update(entity_id as int, None), entity_id as int),
        entries_slot(entries_set(entries, entity_id, None), entity_id) is None,
{
    lemma_entries_set_wf(entries, capacity, entity_id, None);
}

/// Adding a system for `key` makes it the last system run for each event of
/// kind `key`, after the systems added before it.
pub proof fn law_added_system_runs_last(
    systems: Seq<(TypeKey, SystemId)>,
    key: TypeKey,
    system: SystemId,
)
    ensures
        triggered_steps(systems.push((key, system)), key) == triggered_steps(systems, key).push(
            DispatchStep::RunSystem(system),
        ),
        forall|other: TypeKey| other != key ==> triggered_steps(systems.push((key, system)), other)
            == triggered_steps(systems, other),
{
    assert(systems.push((key, system)).drop_last() =~= systems);
    assert forall|other: TypeKey| other != key implies triggered_steps(
        systems.push((key, system)),
        other,
    ) == triggered_steps(systems, other) by {
        assert(systems.push((key, system)).drop_last() =~= systems);
    }
}

/// Resources: what is stored under a kind is what is read back, popping it
/// leaves no resource of that kind, and other kinds are untouched.
pub proof fn law_resource_read_after_write<R>(m: Map<TypeKey, R>, key: TypeKey, r: R, other: TypeKey)
    ensures
        m.insert(key, r).contains_key(key),
        m.insert(key, r)[key] == r,
        !m.remove(key).contains_key(key),
        other != key ==> m.insert(key, r).get(other) == m.get(other),
        other != key ==> m.remove(key).get(other) == m.get(other),
{
}

/// In a consistent world, a live entity has a component of a registered
/// kind exactly when that kind's line holds a value for it, and a free slot
/// holds no value in any line.
pub proof fn law_signature_matches_slots<R, E: Event>(w: ECS<R, E>, entity_id: usize, key: TypeKey)
    requires
        w.wf(),
        w.consistent(),
        w.compoents.is_registered(key),
    ensures
        spec_is_alive(w.entities@, entity_id as int) ==> (w.spec_has_component(entity_id as int, key)
            <==> w.compoents.slot(key, entity_id) is Some),
        entity_id < w.entities@.len() && w.entities@[entity_id as int] is None
            ==> w.compoents.slot(key, entity_id) is None,
        entity_id >= w.entities@.len() ==> w.compoents.slot(key, entity_id) is None,
{
    assert(slot_agrees(w.entities@, w.compoents, entity_id, key));
}

/// Held keys: a key reads as pressed after it is pressed and as not pressed
/// after it is released, and recording one key leaves every other as it was.
pub proof fn law_key_state_is_last_recorded(
    m: Map<Seq<char>, bool>,
    key: Seq<char>,
    held: bool,
    other: Seq<char>,
)
    ensures
        m.insert(key, true).get(key) == Some(true),
        m.insert(key, false).get(key) != Some(true),
        other != key ==> m.insert(key, held).get(other) == m.get(other),
{
}

/// Held keys over a history: after the presses and releases of `history`,
/// starting from no keys, a key reads as pressed exactly when the last press
/// or release of it was a press; a key never pressed or released reads as
/// not pressed. Pressing or releasing one more key records it over the
/// view so far, as `press_key` and `release_key` do.
pub proof fn law_held_keys_follow_history(history: Seq<(Seq<char>, bool)>, key: Seq<char>, held: bool)
    ensures
        replay(history.push((key, held))) == replay(history).insert(key, held),
        replay(history).get(key) == last_recorded(history, key),
        (replay(history).get(key) == Some(true)) <==> (last_recorded(history, key) == Some(true)),
    decreases history.len(),
{
    assert(history.push((key, held)).drop_last() =~= history);
    if history.len() > 0 {
        law_held_keys_follow_history(history.drop_last(), key, held);
    }
}

/// An entity is alive exactly when its own slot is occupied and it is slot
/// `0` of a non-empty table or not the table's last slot; nothing else in
/// the table matters.
pub proof fn law_liveness_exact(info: Seq<Option<Sigtype>>, id: int)
    requires
        0 <= id,
    ensures
        spec_is_alive(info, id) <==> (id < info.len() && info[id] is Some && (id == 0 || id + 1
            < info.len())),
{
}

/// Liveness is local: changing any other slot, freeing it or filling it,
/// leaves an entity's liveness as it was.
pub proof fn law_liveness_is_local(info: Seq<Option<Sigtype>>, id: int, j: int, v: Option<Sigtype>)
    requires
        0 <= id,
        0 <= j < info.len(),
        j != id,
    ensures
        spec_is_alive(info.update(j, v), id) == spec_is_alive(info, id),
{
    law_liveness_exact(info, id);
    law_liveness_exact(info.update(j, v), id);
}

/// An entity has a component of a kind exactly when it is alive (its own
/// slot occupied, and slot `0` or not the last slot), the kind is
/// registered, and its signature holds the kind's bit.
pub proof fn law_has_component_exact<R, E: Event>(w: ECS<R, E>, id: usize, key: TypeKey)
    ensures
        w.spec_has_component(id as int, key) <==> (id < w.entities@.len() && w.entities@[id as int] is Some
            && (id == 0 || id + 1 < w.entities@.len()) && w.compoents.is_registered(key) && sig_has(
            w.entities@[id as int].unwrap(),
            w.compoents.type_to_sig@[key],
        )),
{
    law_liveness_exact(w.entities@, id as int);
}

/// A filter keeps a strictly increasing sequence strictly increasing.
proof fn lemma_filter_increasing(s: Seq<EntityID>, pred: spec_fn(EntityID) -> bool)
    requires
        forall|a: int, b: int| 0 <= a < b < s.len() ==> s[a] < s[b],
    ensures
        forall|a: int, b: int| 0 <= a < b < s.filter(pred).len() ==> s.filter(pred)[a] < s.filter(pred)[b],
    decreases s.len(),
{
    reveal_with_fuel(Seq::<EntityID>::filter, 1);
    if s.len() > 0 {
        let p = s.drop_last();
        lemma_filter_increasing(p, pred);
        let fp = p.filter(pred);
        if pred(s.last()) {
            assert forall|a: int| 0 <= a < fp.len() implies fp[a] < s.last() by {
                assert(fp.contains(fp[a]));
                p.lemma_filter_contains_rev(pred, fp[a]);
                let k = choose|k: int| 0 <= k < p.len() && p[k] == fp[a];
                assert(s[k] == p[k]);
            }
            assert(s.filter(pred) == fp.push(s.last()));
        }
    }
}

/// The live entities with a kind are listed exactly, each once, in
/// increasing order of id: an id is listed exactly when the entity has a
/// component of the kind; the last listed is the highest such id.
pub proof fn law_entities_with_exact<R, E: Event>(w: ECS<R, E>, key: TypeKey)
    requires
        w.entities@.len() <= usize::MAX,
    ensures
        forall|id: EntityID| #[trigger] w.ids_with(key).contains(id) <==> w.spec_has_component(id as int, key),
        forall|a: int, b: int|
            0 <= a < b < w.ids_with(key).len() ==> w.ids_with(key)[a] < w.ids_with(key)[b],
        w.ids_with(key).len() > 0 ==> w.spec_has_component(w.ids_with(key).last() as int, key),
        w.ids_with(key).len() > 0 ==> forall|id: EntityID|
            #[trigger] w.spec_has_component(id as int, key) ==> id <= w.ids_with(key).last(),
        w.ids_with(key).len() == 0 ==> forall|id: EntityID| !#[trigger] w.spec_has_component(id as int, key),
{
    let info = w.entities@;
    let ids = occupied_ids(info);
    let pred = w.has_kind(key);
    law_occupied_ids_exact(info);
    lemma_filter_increasing(ids, pred);
    let f = ids.filter(pred);
    assert forall|id: EntityID| #[trigger] f.contains(id) <==> w.spec_has_component(id as int, key) by {
        if f.contains(id) {
            let k = choose|k: int| 0 <= k < f.len() && f[k] == id;
            ids.lemma_filter_pred(pred, k);
        }
        if w.spec_has_component(id as int, key) {
            law_liveness_exact(info, id as int);
            assert(ids.contains(id));
            let k = choose|k: int| 0 <= k < ids.len() && ids[k] == id;
            assert(pred(ids[k]));
            ids.lemma_filter_contains(pred, k);
        }
    }
    if f.len() > 0 {
        assert(f.contains(f.last()));
        assert forall|id: EntityID| #[trigger] w.spec_has_component(id as int, key) implies id <= f.last() by {
            assert(f.contains(id));
            let k = choose|k: int| 0 <= k < f.len() && f[k] == id;
            if k < f.len() - 1 {
                assert(f[k] < f[f.len() - 1]);
            }
        }
    } else {
        assert forall|id: EntityID| !#[trigger] w.spec_has_component(id as int, key) by {
            if w.spec_has_component(id as int, key) {
                assert(f.contains(id));
            }
        }
    }
}

/// A lookup by id returns the entry of that id whenever it is in range, and
/// entry `0` otherwise.
pub proof fn law_lookup_in_range(id: int, len: int)
    requires
        0 <= id,
        0 < len,
    ensures
        id < len ==> clamp_id(id, len) == id,
        id >= len ==> clamp_id(id, len) == 0,
        0 <= clamp_id(id, len) < len,
{
}

/// The kinds an update dispatches are exactly the kinds of the queued
/// events, one per event, oldest first.
pub proof fn law_event_keys_are_queue_kinds<E>(events: Seq<(TypeKey, E)>, e: (TypeKey, E))
    ensures
        event_keys(events).len() == events.len(),
        forall|i: int| 0 <= i < events.len() ==> #[trigger] event_keys(events)[i] == events[i].0,
        event_keys(events.push(e)) == event_keys(events).push(e.0),
{
    assert(event_keys(events.push(e)) =~= event_keys(events).push(e.0));
}

/// An update's plan runs, for each queued event in order, the systems of
/// its kind and then retires it: queuing one more event appends exactly its
/// systems and one retiring step, and the plan retires every queued event
/// once.
pub proof fn law_schedule_covers_every_event<E>(
    events: Seq<(TypeKey, E)>,
    e: (TypeKey, E),
    systems: Seq<(TypeKey, SystemId)>,
)
    ensures
        dispatch_plan(event_keys(events.push(e)), systems) == dispatch_plan(event_keys(events), systems)
            + triggered_steps(systems, e.0).push(DispatchStep::FinishEvent),
        dispatch_plan(event_keys(events), systems).filter(|s: DispatchStep| s is FinishEvent).len()
            == events.len(),
{
    law_event_keys_are_queue_kinds(events, e);
    law_plan_appends_per_event(event_keys(events), systems, e.0);
    law_each_event_retired_once(event_keys(events), systems);
}

} // verus!
