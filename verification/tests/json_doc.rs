use ecs::json_doc::{fraction_runs_shorter, json_as_u32, json_item, json_member, JsonDoc, DIGIT_RUN_LIMIT};

fn doc() -> JsonDoc {
    JsonDoc::Object(vec![
        ("n".to_string(), JsonDoc::Number(Some(12))),
        ("arr".to_string(), JsonDoc::Array(vec![JsonDoc::Number(Some(1)), JsonDoc::Bool(true)])),
        ("big".to_string(), JsonDoc::Number(Some(1 << 40))),
        ("s".to_string(), JsonDoc::Str("x".to_string())),
    ])
}

#[test]
fn member_item_and_number_lookups() {
    let d = doc();
    assert_eq!(json_as_u32(json_member(Some(&d), "n")), Some(12));
    assert_eq!(json_as_u32(json_member(Some(&d), "big")), None);
    assert_eq!(json_as_u32(json_member(Some(&d), "s")), None);
    assert!(json_member(Some(&d), "missing").is_none());
    assert!(json_member(None, "n").is_none());
    let arr = json_member(Some(&d), "arr");
    assert_eq!(json_as_u32(json_item(arr, 0)), Some(1));
    assert_eq!(json_as_u32(json_item(arr, 1)), None);
    assert!(json_item(arr, 2).is_none());
    assert!(json_item(Some(&d), 0).is_none());
    assert_eq!(json_as_u32(Some(&JsonDoc::Number(None))), None);
    assert_eq!(json_as_u32(Some(&JsonDoc::Null)), None);
}

#[test]
fn fraction_runs_are_measured() {
    assert!(fraction_runs_shorter("", 1));
    assert!(fraction_runs_shorter("abc", 1));
    assert!(fraction_runs_shorter("a1b", 1));
    assert!(!fraction_runs_shorter("a.1b", 1));
    assert!(fraction_runs_shorter("a.b", 1));
    assert!(fraction_runs_shorter("123456.123", 4));
    assert!(!fraction_runs_shorter("1.1234", 4));
    assert!(!fraction_runs_shorter("0.12345x", 4));
    assert!(fraction_runs_shorter("0.123x.12", 4));
    assert!(fraction_runs_shorter("é.12é", 3));
    let long = format!("0.{}", "0".repeat(DIGIT_RUN_LIMIT));
    assert!(!fraction_runs_shorter(&long, DIGIT_RUN_LIMIT));
    let just_under = format!("0.{}", "0".repeat(DIGIT_RUN_LIMIT - 1));
    assert!(fraction_runs_shorter(&just_under, DIGIT_RUN_LIMIT));
    let long_integer = format!("[{}]", "7".repeat(DIGIT_RUN_LIMIT + 10));
    assert!(fraction_runs_shorter(&long_integer, DIGIT_RUN_LIMIT));
}
