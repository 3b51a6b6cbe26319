use ecs::components::{Components, LINE_CAPACITY};
use ecs::ecs::ECS;
use ecs::entities::Entities;
use ecs::events::Event;

#[derive(Clone, Debug, PartialEq)]
struct Ev(u32);
impl Event for Ev {}

const POSITION: u64 = 10;
const MESH: u64 = 20;

fn world() -> ECS<String, Ev> {
    ECS::new()
}

#[test]
fn entities_start_empty() {
    let e = Entities::new();
    assert!(e.entity_info.is_empty());
    assert!(!e.is_alive(0));
    assert_eq!(e.get_entity_signature(0), None);
}

#[test]
fn is_alive_counts_slot_zero_but_not_the_last_other_slot() {
    let e = Entities { entity_info: vec![Some(0), Some(4), Some(8)] };
    assert!(e.is_alive(0));
    assert!(e.is_alive(1));
    assert!(!e.is_alive(2));
    assert!(!e.is_alive(7));
    assert_eq!(e.get_entity_signature(1), Some(4));
    assert_eq!(e.get_entity_signature(2), None);
    let single = Entities { entity_info: vec![Some(5)] };
    assert!(single.is_alive(0));
    let free = Entities { entity_info: vec![None, None, Some(1)] };
    assert!(!free.is_alive(0));
    assert!(!free.is_alive(1));
}

#[test]
fn spawn_takes_lowest_free_slot() {
    let mut w = world();
    assert_eq!(w.spawn_entity(), 0);
    assert_eq!(w.spawn_entity(), 1);
    assert_eq!(w.spawn_entity(), 2);
    assert_eq!(w.entities.entity_info, vec![Some(0), Some(0), Some(0)]);
    assert!(w.despawn_entity(1).is_ok());
    assert_eq!(w.entities.entity_info, vec![Some(0), None, Some(0)]);
    assert_eq!(w.spawn_entity(), 1);
    assert_eq!(w.spawn_entity(), 3);
}

#[test]
fn spawned_entity_in_last_slot_is_not_reported_alive() {
    let mut w = world();
    let a = w.spawn_entity();
    assert!(w.entities.is_alive(a));
    let b = w.spawn_entity();
    assert_eq!(b, 1);
    assert!(!w.entities.is_alive(b));
    w.spawn_entity();
    assert!(w.entities.is_alive(b));
}

#[test]
fn attach_then_read_back() {
    let mut w = world();
    let a = w.spawn_entity();
    let b = w.spawn_entity();
    w.spawn_entity();
    w.attach_component(a, POSITION, 7);
    w.attach_component(b, POSITION, 9);
    w.attach_component(b, MESH, 3);
    assert_eq!(w.get_component_ref(a, POSITION), Some(&7));
    assert_eq!(w.get_component_ref(b, POSITION), Some(&9));
    assert_eq!(w.get_component_ref(b, MESH), Some(&3));
    assert_eq!(w.get_component_ref(a, MESH), None);
    assert_eq!(w.entities.entity_info[a], Some(1));
    assert_eq!(w.entities.entity_info[b], Some(3));
    assert!(w.has_component_immut(a, POSITION));
    assert!(!w.has_component_immut(a, MESH));
    assert!(w.has_component_immut(b, MESH));
    assert!(!w.has_component_immut(a, 99));
}

#[test]
fn attach_overwrites_and_keeps_bits() {
    let mut w = world();
    let a = w.spawn_entity();
    w.spawn_entity();
    w.attach_component(a, POSITION, 1);
    w.attach_component(a, POSITION, 2);
    assert_eq!(w.get_component_ref(a, POSITION), Some(&2));
    assert_eq!(w.entities.entity_info[a], Some(1));
}

#[test]
fn attach_to_free_slot_sets_the_bit_alone() {
    let mut w = world();
    w.spawn_entity();
    w.spawn_entity();
    w.attach_component(0, MESH, 4);
    w.despawn_entity(0).unwrap();
    w.attach_component(0, POSITION, 5);
    assert_eq!(w.entities.entity_info[0], Some(2));
}

#[test]
fn get_component_mut_writes_through() {
    let mut w = world();
    let a = w.spawn_entity();
    w.attach_component(a, POSITION, 10);
    *w.get_component_mut(a, POSITION).unwrap() += 5;
    assert_eq!(w.get_component_ref(a, POSITION), Some(&15));
    assert!(w.get_component_mut(1, POSITION).is_none());
}

#[test]
fn pop_component_returns_value_and_clears_bit() {
    let mut w = world();
    let a = w.spawn_entity();
    w.spawn_entity();
    w.attach_component(a, POSITION, 42);
    w.attach_component(a, MESH, 1);
    assert_eq!(w.pop_component(a, POSITION), Ok(42));
    assert_eq!(w.get_component_ref(a, POSITION), None);
    assert_eq!(w.entities.entity_info[a], Some(2));
    assert!(!w.has_component_immut(a, POSITION));
    assert!(w.has_component_immut(a, MESH));
}

#[test]
fn pop_component_errors() {
    let mut w = world();
    let a = w.spawn_entity();
    assert_eq!(
        w.pop_component(5, POSITION),
        Err(String::from("trying to index entity outside lenth"))
    );
    assert_eq!(
        w.pop_component(a, POSITION),
        Err(String::from("entity doesnt have component"))
    );
    w.attach_component(a, POSITION, 3);
    assert_eq!(w.pop_component(a, POSITION), Ok(3));
    assert_eq!(
        w.pop_component(a, POSITION),
        Err(String::from("entity doesnt have component"))
    );
}

#[test]
fn pop_component_on_free_slot_gives_empty_signature() {
    let mut w = world();
    w.spawn_entity();
    w.spawn_entity();
    w.attach_component(1, POSITION, 8);
    w.entities.entity_info[1] = None;
    assert_eq!(w.pop_component(1, POSITION), Ok(8));
    assert_eq!(w.entities.entity_info[1], Some(0));
}

#[test]
fn despawn_clears_every_line() {
    let mut w = world();
    let a = w.spawn_entity();
    let b = w.spawn_entity();
    w.spawn_entity();
    w.attach_component(a, POSITION, 1);
    w.attach_component(a, MESH, 2);
    w.attach_component(b, MESH, 3);
    assert_eq!(w.despawn_entity(a), Ok(()));
    assert_eq!(w.entities.entity_info[a], None);
    assert_eq!(w.get_component_ref(a, POSITION), None);
    assert_eq!(w.get_component_ref(a, MESH), None);
    assert_eq!(w.get_component_ref(b, MESH), Some(&3));
    assert!(!w.has_component_immut(a, MESH));
}

#[test]
fn despawn_outside_table_fails() {
    let mut w = world();
    w.spawn_entity();
    assert_eq!(
        w.despawn_entity(1),
        Err(String::from("trying to index entity outside lenth"))
    );
    assert_eq!(w.entities.entity_info, vec![Some(0)]);
}

#[test]
fn has_component_registers_the_kind() {
    let mut w = world();
    let a = w.spawn_entity();
    assert!(!w.has_component(a, MESH));
    assert_eq!(w.compoents.sig_offset, 1);
    assert_eq!(w.compoents.type_to_sig.get(&MESH), Some(&1));
    assert!(!w.has_component(a, MESH));
    assert_eq!(w.compoents.sig_offset, 1);
}

#[test]
fn alive_entity_ids_lists_occupied_slots() {
    let mut w = world();
    for _ in 0..5 {
        w.spawn_entity();
    }
    w.despawn_entity(1).unwrap();
    w.despawn_entity(3).unwrap();
    assert_eq!(w.iter_over_alive_entity_ids(), vec![0, 2, 4]);
    assert_eq!(world().iter_over_alive_entity_ids(), Vec::<usize>::new());
}

#[test]
fn components_register_bits_in_order() {
    let mut c = Components::new();
    c.initialize_component(100);
    c.initialize_component(200);
    c.initialize_component(100);
    assert_eq!(c.sig_offset, 2);
    assert_eq!(c.type_to_sig.get(&100), Some(&1));
    assert_eq!(c.type_to_sig.get(&200), Some(&2));
    assert_eq!(c.sig_to_type.get(&2), Some(&200));
    assert_eq!(c.sig_to_data.get(&1).unwrap().dealloc_line, 100);
}

#[test]
fn components_pop_indexes_dense_entries() {
    let mut c = Components::new();
    c.insert_component(11, 100, 5);
    c.insert_component(22, 100, 2);
    assert_eq!(c.pop_component(100, 0), Some(11));
    assert_eq!(c.pop_component(100, 1), Some(22));
    assert_eq!(c.pop_component(100, 2), None);
    assert_eq!(c.pop_component(100, 5), None);
}

#[test]
fn components_free_all_at_entity() {
    let mut c = Components::new();
    c.insert_component(1, 100, 3);
    c.insert_component(2, 200, 3);
    c.insert_component(3, 200, 4);
    c.free_all_components_at_entity_id(3);
    assert_eq!(c.pop_component(100, 0), None);
    assert_eq!(c.pop_component(200, 1), Some(3));
    assert_eq!(c.component_lines[&100].get(3), Some(&None));
    assert_eq!(c.component_lines[&200].get(3), Some(&None));
    assert_eq!(c.component_lines[&200].get(4), Some(&Some(3)));
}

#[test]
fn last_slot_of_a_line_is_usable() {
    let mut w = world();
    for _ in 0..LINE_CAPACITY {
        w.spawn_entity();
    }
    let last = LINE_CAPACITY - 1;
    w.attach_component(last, MESH, 77);
    assert_eq!(w.get_component_ref(last, MESH), Some(&77));
}

#[test]
fn despawned_entity_has_no_components_and_is_dead() {
    let mut w = world();
    w.spawn_entity();
    w.spawn_entity();
    w.spawn_entity();
    w.attach_component(1, MESH, 5);
    assert!(w.has_component_immut(1, MESH));
    w.despawn_entity(1).unwrap();
    assert!(!w.entities.is_alive(1));
    assert_eq!(w.get_component_ref(1, MESH), None);
    assert_eq!(w.pop_component(1, MESH), Err(String::from("entity doesnt have component")));
}

#[test]
fn signatures_agree_with_component_slots_through_a_session() {
    let mut w = world();
    let a = w.spawn_entity();
    let b = w.spawn_entity();
    let c = w.spawn_entity();
    w.attach_component(a, POSITION, 1);
    w.attach_component(b, POSITION, 2);
    w.attach_component(b, MESH, 3);
    assert_eq!(w.pop_component(a, POSITION), Ok(1));
    w.despawn_entity(c).unwrap();
    for id in [a, b] {
        for key in [POSITION, MESH] {
            assert_eq!(
                w.has_component_immut(id, key),
                w.get_component_ref(id, key).is_some(),
                "entity {} kind {}",
                id,
                key
            );
        }
    }
    assert!(w.has_component_immut(b, MESH));
    assert!(!w.has_component_immut(a, POSITION));
    assert_eq!(w.get_component_ref(c, POSITION), None);
    assert_eq!(w.get_component_ref(c, MESH), None);
}

#[test]
fn entities_with_a_kind_in_id_order() {
    let mut w = world();
    let a = w.spawn_entity();
    let b = w.spawn_entity();
    let c = w.spawn_entity();
    let d = w.spawn_entity();
    w.attach_component(a, MESH, 1);
    w.attach_component(c, MESH, 2);
    w.attach_component(b, POSITION, 3);
    w.attach_component(d, MESH, 4);
    assert_eq!(w.entities_with(MESH), vec![a, c]);
    assert_eq!(w.last_entity_with(MESH), Some(c));
    assert_eq!(w.entities_with(POSITION), vec![b]);
    assert_eq!(w.entities_with(777), Vec::<usize>::new());
    assert_eq!(w.last_entity_with(777), None);
    w.despawn_entity(c).unwrap();
    assert_eq!(w.last_entity_with(MESH), Some(a));
}
