use ecs::app::{App, DispatchStep, Plugins, Systems};
use ecs::archetypes::{Parent, Plugins as DefaultPlugins, Runtime};
use ecs::atlas::{decode_image, texture_info_from_fields, MeshAtlas, TextureAtlas, TextureInfo};
use ecs::events::Event;
use ecs::json_doc::JsonDoc;
use ecs::keys::HeldKeys;

#[derive(Clone, Debug, PartialEq)]
struct Ev(u32);
impl Event for Ev {}

const STARTUP: u64 = 1;
const UPDATE: u64 = 2;
const CUSTOM: u64 = 3;

#[test]
fn new_app_is_empty() {
    let app: App<u32, Ev> = App::new();
    assert!(app.update_info.is_first);
    assert!(app.systems.systems.is_empty());
    assert!(app.plugins.plugins.is_empty());
    assert!(Systems::new().systems.is_empty());
    assert!(Plugins::new().plugins.is_empty());
}

#[test]
fn first_update_queues_startup_then_update() {
    let mut app: App<u32, Ev> = App::new();
    assert!(app.begin_update((STARTUP, Ev(0)), (UPDATE, Ev(1))));
    assert_eq!(app.ecs.events.events.back(), Some(&(STARTUP, Ev(0))));
    app.finish_event();
    app.end_update();
    assert!(!app.begin_update((STARTUP, Ev(0)), (UPDATE, Ev(1))));
    assert_eq!(app.ecs.events.events.back(), Some(&(UPDATE, Ev(1))));
}

#[test]
fn schedule_runs_triggered_systems_in_added_order() {
    let mut app: App<u32, Ev> = App::new();
    app.add_system(STARTUP, 0);
    app.add_system(UPDATE, 1);
    app.add_system(STARTUP, 2);
    app.add_system(CUSTOM, 3);
    app.begin_update((STARTUP, Ev(0)), (UPDATE, Ev(1)));
    app.ecs.events.push_event(CUSTOM, Ev(9));
    app.ecs.events.push_event(99, Ev(9));
    let plan = app.dispatch_schedule();
    assert_eq!(
        plan,
        vec![
            DispatchStep::RunSystem(0),
            DispatchStep::RunSystem(2),
            DispatchStep::FinishEvent,
            DispatchStep::RunSystem(3),
            DispatchStep::FinishEvent,
            DispatchStep::FinishEvent,
        ]
    );
}

#[test]
fn full_update_cycle_delivers_raised_events_next_tick() {
    let mut app: App<u32, Ev> = App::new();
    app.add_system(STARTUP, 0);
    app.begin_update((STARTUP, Ev(0)), (UPDATE, Ev(1)));
    let mut ran = vec![];
    for step in app.dispatch_schedule() {
        match step {
            DispatchStep::RunSystem(id) => {
                ran.push(id);
                assert_eq!(app.ecs.get_event(STARTUP), Some(&Ev(0)));
                app.ecs.push_event(CUSTOM, Ev(5));
            }
            DispatchStep::FinishEvent => app.finish_event(),
        }
    }
    assert_eq!(ran, vec![0]);
    assert!(app.ecs.events.events.is_empty());
    app.end_update();
    assert_eq!(app.ecs.events.events.len(), 1);
    assert_eq!(app.ecs.get_event(CUSTOM), Some(&Ev(5)));
    assert!(app.ecs.events.next_tick_events.is_empty());
}

#[test]
fn plugins_keep_added_order_and_run_once() {
    let mut app: App<u32, Ev> = App::new();
    app.add_plugin(4);
    app.add_plugins((5usize, 6usize));
    app.add_plugins((7usize, 8usize, 9usize));
    app.add_plugins(DefaultPlugins(10));
    app.add_plugin_active_event_loop(11);
    let plugins = app.begin_run_plugins();
    assert_eq!(
        plugins.plugins,
        vec![(4, false), (5, false), (6, false), (7, false), (8, false), (9, false), (10, false), (11, true)]
    );
    assert!(app.plugins.plugins.is_empty());
    app.add_plugin(12);
    app.end_run_plugins();
    assert!(app.plugins.plugins.is_empty());
}

#[test]
fn runtime_and_parent_hold_their_values() {
    let r = Runtime::new(5u8);
    assert_eq!(r.runtime, 5);
    let p = Parent { entity_id: 3 };
    assert_eq!(p.entity_id, 3);
}

fn info(name: &str, atlas_id: u32) -> TextureInfo {
    TextureInfo { name: Some(name.to_string()), size: (1, 2), origin: (3, 4), atlas_id }
}

#[test]
fn get_texture_falls_back_to_first() {
    let atlas = TextureAtlas { atlas: (), texture_views: 'v', texture_info: vec![info("a", 0), info("b", 1)] };
    assert_eq!(atlas.get_texture(1).1.atlas_id, 1);
    assert_eq!(*atlas.get_texture(1).0, 'v');
    assert_eq!(atlas.get_texture(2).1.atlas_id, 0);
    assert_eq!(atlas.get_texture(usize::MAX).1.atlas_id, 0);
}

#[test]
fn get_mesh_falls_back_to_first() {
    let mut meshes: MeshAtlas<&str> = MeshAtlas::new();
    assert!(meshes.vertex_buffers.is_empty());
    meshes.vertex_buffers.push(("cube", 36));
    meshes.vertex_buffers.push(("guy", 900));
    assert_eq!(meshes.get_mesh(1), (&"guy", 900));
    assert_eq!(meshes.get_mesh(5), (&"cube", 36));
}

#[test]
fn texture_info_fields() {
    let ok = texture_info_from_fields("grass".to_string(), Some(2), Some(16), Some(32), Some(8), Some(9)).unwrap();
    assert_eq!(ok.name, Some("grass".to_string()));
    assert_eq!(ok.atlas_id, 2);
    assert_eq!(ok.origin, (16, 32));
    assert_eq!(ok.size, (8, 9));
    let err = texture_info_from_fields("stone".to_string(), Some(2), None, Some(32), Some(8), Some(9));
    assert_eq!(err.unwrap_err(), "unexpected token at: stone");
}

#[test]
fn read_texture_data_from_json() {
    let mut atlas = TextureAtlas { atlas: (), texture_views: (), texture_info: vec![info("base", 0)] };
    let text = r#"{"grass": {"atlas_id": 0, "origin": [16, 32], "size": [8, 8]},
                   "stone": {"atlas_id": 1, "origin": [0, 64], "size": [4, 2]}}"#;
    assert_eq!(atlas.read_texture_data(text), Ok(()));
    assert_eq!(atlas.texture_info.len(), 3);
    assert_eq!(atlas.texture_info[1].name, Some("grass".to_string()));
    assert_eq!(atlas.texture_info[1].origin, (16, 32));
    assert_eq!(atlas.texture_info[2].name, Some("stone".to_string()));
    assert_eq!(atlas.texture_info[2].atlas_id, 1);
    assert_eq!(atlas.texture_info[2].size, (4, 2));
}

#[test]
fn read_texture_data_errors() {
    let mut atlas = TextureAtlas { atlas: (), texture_views: (), texture_info: vec![] };
    assert_eq!(
        atlas.read_texture_data("{not json"),
        Err("texture data file not valid json".to_string())
    );
    let text = r#"{"grass": {"atlas_id": 0, "origin": [16, 32], "size": [8, 8]},
                   "bad": {"atlas_id": -1, "origin": [0, 0], "size": [1, 1]}}"#;
    assert_eq!(atlas.read_texture_data(text), Err("unexpected token at: bad".to_string()));
    assert_eq!(atlas.texture_info.len(), 1);
    assert_eq!(atlas.read_texture_data("[]"), Ok(()));
}

fn png_bytes() -> Vec<u8> {
    let img = image::RgbaImage::from_raw(2, 1, vec![1, 2, 3, 4, 5, 6, 7, 8]).unwrap();
    let mut out = std::io::Cursor::new(Vec::new());
    img.write_to(&mut out, image::ImageFormat::Png).unwrap();
    out.into_inner()
}

#[test]
fn load_texture_adds_its_info_and_returns_the_old_length() {
    let mut atlas = TextureAtlas { atlas: (), texture_views: (), texture_info: vec![info("a", 3), info("b", 1)] };
    let (id, w, h, pixels) = atlas.load_texture(&png_bytes(), Some("guy".to_string())).unwrap();
    assert_eq!(id, 2);
    assert_eq!((w, h), (2, 1));
    assert_eq!(pixels, vec![1, 2, 3, 4, 5, 6, 7, 8]);
    assert_eq!(atlas.texture_info.len(), 3);
    assert_eq!(atlas.texture_info[2].name, Some("guy".to_string()));
    assert_eq!(atlas.texture_info[2].size, (2, 1));
    assert_eq!(atlas.texture_info[2].origin, (0, 0));
    assert_eq!(atlas.texture_info[2].atlas_id, 0);
    assert_eq!(atlas.texture_info[0].atlas_id, 3);
    let mut empty = TextureAtlas { atlas: (), texture_views: (), texture_info: vec![] };
    assert_eq!(empty.load_texture(&png_bytes(), None).unwrap().0, 0);
    assert_eq!(empty.texture_info.len(), 1);
    assert_eq!(empty.texture_info[0].name, None);
    assert_eq!(empty.get_texture(0).1.size, (2, 1));
}

#[test]
fn load_texture_errors() {
    let mut atlas = TextureAtlas { atlas: (), texture_views: (), texture_info: vec![info("a", 0)] };
    assert_eq!(
        atlas.load_texture(b"not an image", Some("x".to_string())),
        Err("texture image could not be decoded".to_string())
    );
    assert_eq!(atlas.texture_info.len(), 1);
}

#[test]
fn decode_image_adds_nothing() {
    assert_eq!(decode_image(&png_bytes()), Ok((2, 1, vec![1, 2, 3, 4, 5, 6, 7, 8])));
    assert_eq!(decode_image(b"\x89PNG broken"), Err("texture image could not be decoded".to_string()));
}

#[test]
fn add_decoded_texture_places_the_image() {
    let mut atlas = TextureAtlas { atlas: (), texture_views: (), texture_info: vec![info("a", 0), info("b", 1), info("c", 2)] };
    assert_eq!(
        atlas.add_decoded_texture(Some((3, 1, vec![9; 12])), Some("d".to_string())),
        Ok((3, 3, 1, vec![9; 12]))
    );
    assert_eq!(atlas.texture_info.len(), 4);
    assert_eq!(atlas.texture_info[3].size, (3, 1));
    assert_eq!(atlas.texture_info[3].name, Some("d".to_string()));
    assert_eq!(
        atlas.add_decoded_texture(None, None),
        Err("texture image could not be decoded".to_string())
    );
    assert_eq!(atlas.texture_info.len(), 4);
}

#[test]
fn read_texture_data_keeps_field_roles_and_order() {
    let mut atlas = TextureAtlas { atlas: (), texture_views: (), texture_info: vec![] };
    let text = r#"{"b": {"size": [5, 6], "atlas_id": 7, "origin": [1, 2]},
                   "a": {"atlas_id": 3, "origin": [9, 8], "size": [4294967295, 0]}}"#;
    assert_eq!(atlas.read_texture_data(text), Ok(()));
    assert_eq!(atlas.texture_info[0].name, Some("b".to_string()));
    assert_eq!(atlas.texture_info[0].origin, (1, 2));
    assert_eq!(atlas.texture_info[0].size, (5, 6));
    assert_eq!(atlas.texture_info[0].atlas_id, 7);
    assert_eq!(atlas.texture_info[1].name, Some("a".to_string()));
    assert_eq!(atlas.texture_info[1].size, (4294967295, 0));
    let mut other = TextureAtlas { atlas: (), texture_views: (), texture_info: vec![] };
    let too_big = r#"{"c": {"atlas_id": 4294967296, "origin": [0, 0], "size": [1, 1]}}"#;
    assert_eq!(other.read_texture_data(too_big), Err("unexpected token at: c".to_string()));
    let fraction = r#"{"d": {"atlas_id": 1.5, "origin": [0, 0], "size": [1, 1]}}"#;
    assert_eq!(other.read_texture_data(fraction), Err("unexpected token at: d".to_string()));
    assert_eq!(other.read_texture_data("5"), Ok(()));
    assert!(other.texture_info.is_empty());
}

#[test]
fn read_texture_data_refuses_overlong_digit_runs() {
    let mut atlas = TextureAtlas { atlas: (), texture_views: (), texture_info: vec![] };
    let long = format!(r#"{{"a": {{"atlas_id": 0.{}, "origin": [0, 0], "size": [1, 1]}}}}"#, "0".repeat(40000));
    assert_eq!(
        atlas.read_texture_data(&long),
        Err("texture data file holds a number too long to parse".to_string())
    );
    assert!(atlas.texture_info.is_empty());
    let fine = format!(r#"{{"a": {{"extra": 0.{}, "atlas_id": 7, "origin": [0, 0], "size": [1, 1]}}}}"#, "0".repeat(100));
    assert_eq!(atlas.read_texture_data(&fine), Ok(()));
    assert_eq!(atlas.texture_info[0].atlas_id, 7);
    let long_name = format!(r#"{{"{}": {{"atlas_id": 2, "origin": [0, 0], "size": [1, 1]}}}}"#, "9".repeat(40000));
    assert_eq!(atlas.read_texture_data(&long_name), Ok(()));
    assert_eq!(atlas.texture_info.len(), 2);
    assert_eq!(atlas.texture_info[1].atlas_id, 2);
}

#[test]
fn held_keys_record_the_last_state() {
    let mut keys = HeldKeys::new();
    assert!(!keys.is_pressed("w"));
    keys.press_key("w");
    assert!(keys.is_pressed("w"));
    assert!(!keys.is_pressed("a"));
    keys.press_key("a");
    keys.release_key("w");
    assert!(!keys.is_pressed("w"));
    assert!(keys.is_pressed("a"));
    keys.press_key("w");
    assert!(keys.is_pressed("w"));
    assert_eq!(keys.held_keys.len(), 2);
    keys.release_key("space");
    assert!(!keys.is_pressed("space"));
    assert_eq!(keys.held_keys.len(), 3);
}

fn nums(a: u64, b: u64) -> JsonDoc {
    JsonDoc::Array(vec![JsonDoc::Number(Some(a)), JsonDoc::Number(Some(b))])
}

#[test]
fn read_texture_doc_appends_entries_in_order() {
    let first = JsonDoc::Object(vec![
        ("atlas_id".to_string(), JsonDoc::Number(Some(7))),
        ("origin".to_string(), nums(1, 2)),
        ("size".to_string(), nums(5, 6)),
    ]);
    let second = JsonDoc::Object(vec![
        ("size".to_string(), nums(3, 4)),
        ("origin".to_string(), nums(8, 9)),
        ("atlas_id".to_string(), JsonDoc::Number(Some(0))),
    ]);
    let broken = JsonDoc::Object(vec![
        ("atlas_id".to_string(), JsonDoc::Number(Some(1))),
        ("origin".to_string(), nums(0, 0)),
    ]);
    let doc = JsonDoc::Object(vec![
        ("f".to_string(), first),
        ("s".to_string(), second),
        ("b".to_string(), broken),
    ]);
    let mut atlas = TextureAtlas { atlas: (), texture_views: (), texture_info: vec![] };
    assert_eq!(atlas.read_texture_doc(&doc), Err("unexpected token at: b".to_string()));
    assert_eq!(atlas.texture_info.len(), 2);
    assert_eq!(atlas.texture_info[0].name, Some("f".to_string()));
    assert_eq!(atlas.texture_info[0].origin, (1, 2));
    assert_eq!(atlas.texture_info[0].size, (5, 6));
    assert_eq!(atlas.texture_info[0].atlas_id, 7);
    assert_eq!(atlas.texture_info[1].name, Some("s".to_string()));
    assert_eq!(atlas.texture_info[1].origin, (8, 9));
    assert_eq!(atlas.texture_info[1].size, (3, 4));
    assert_eq!(atlas.texture_info[1].atlas_id, 0);
    assert_eq!(atlas.read_texture_doc(&JsonDoc::Array(vec![])), Ok(()));
    assert_eq!(atlas.texture_info.len(), 2);
}
