use ecs::ecs::ECS;
use ecs::events::{Event, Events};
use ecs::recources::Recources;

#[derive(Clone, Debug, PartialEq)]
struct Ev(u32);
impl Event for Ev {}

#[test]
fn resources_read_after_write() {
    let mut r: Recources<String> = Recources::new();
    assert!(!r.has_recource(1));
    assert_eq!(r.get_recource_ref(1), None);
    r.insert_recource(1, String::from("a"));
    r.insert_recource(2, String::from("b"));
    assert!(r.has_recource(1));
    assert_eq!(r.get_recource_ref(1), Some(&String::from("a")));
    r.insert_recource(1, String::from("c"));
    assert_eq!(r.get_recource_ref(1), Some(&String::from("c")));
    r.get_recource_mut(2).unwrap().push('x');
    assert_eq!(r.get_recource_ref(2), Some(&String::from("bx")));
    assert!(r.get_recource_mut(3).is_none());
    assert_eq!(r.pop_recource(1), Some(String::from("c")));
    assert!(!r.has_recource(1));
    assert_eq!(r.pop_recource(1), None);
}

#[test]
fn world_resources() {
    let mut w: ECS<u32, Ev> = ECS::new();
    w.push_recource(4, 40);
    assert!(w.has_recource(4));
    *w.get_recource_mut(4).unwrap() += 1;
    assert_eq!(w.get_recource_ref(4), Some(&41));
    assert_eq!(w.pop_recource(4), Some(41));
    assert_eq!(w.get_recource_ref(4), None);
}

#[test]
fn latest_event_matches_front_kind_only() {
    let mut e: Events<Ev> = Events::new();
    assert_eq!(e.get_latest_event(1), None);
    e.push_event(1, Ev(10));
    e.push_event(2, Ev(20));
    assert_eq!(e.get_latest_event(1), Some(&Ev(10)));
    assert_eq!(e.get_latest_event(2), None);
}

#[test]
fn next_tick_events_arrive_after_swap() {
    let mut e: Events<Ev> = Events::new();
    e.push_event(1, Ev(1));
    e.push_next_tick_event(2, Ev(2));
    e.push_next_tick_event(3, Ev(3));
    assert_eq!(e.get_latest_event(2), None);
    e.swap_and_clear();
    assert_eq!(e.events.len(), 2);
    assert!(e.next_tick_events.is_empty());
    assert_eq!(e.get_latest_event(2), Some(&Ev(2)));
    e.swap_and_clear();
    assert!(e.events.is_empty());
}

#[test]
fn world_events_go_to_next_tick() {
    let mut w: ECS<u32, Ev> = ECS::new();
    w.push_event(7, Ev(70));
    assert_eq!(w.get_event(7), None);
    w.events.swap_and_clear();
    assert_eq!(w.get_event(7), Some(&Ev(70)));
}
