use serde_json::Value;

use paper2voice::errors::Failure;
use paper2voice::session::{
    load_app_session, parsed_session, save_app_session, SaveSessionRequest,
};

fn object(entries: Vec<(&str, Value)>) -> Value {
    Value::Object(entries.into_iter().map(|(key, value)| (key.to_string(), value)).collect())
}

fn sample() -> Value {
    object(vec![
        ("books", Value::Array(vec![Value::from("a.pdf"), Value::Null])),
        ("page", Value::from(3)),
    ])
}

#[test]
fn there_may_be_no_session() {
    assert_eq!(load_app_session("/s.json", None).unwrap(), None);
}

#[test]
fn sessions_are_parsed() {
    let raw = " {\"page\": 3, \"books\": [\"a.pdf\", null]}\n".to_string();
    assert_eq!(load_app_session("/s.json", Some(raw)).unwrap(), Some(sample()));
}

#[test]
fn unreadable_sessions_are_named() {
    let failure = load_app_session("/s.json", Some("{".to_string())).unwrap_err();
    assert_eq!(
        failure.message(),
        "Failed to read saved Paper2Voice session at /s.json: \
         EOF while parsing an object at line 1 column 1"
    );
    let empty = load_app_session("/s.json", Some(String::new()));
    assert!(matches!(empty, Err(Failure::SessionUnreadable { .. })));
    let deep = load_app_session("/s.json", Some("[".repeat(100_000)));
    assert!(matches!(deep, Err(Failure::SessionUnreadable { .. })));
}

#[test]
fn parse_errors_are_told_with_the_path() {
    let value = parsed_session("/s.json", Ok(Value::from(true))).unwrap();
    assert_eq!(value, Value::from(true));
    let failure = parsed_session("/s.json", Err("no luck".to_string())).unwrap_err();
    assert_eq!(
        failure.message(),
        "Failed to read saved Paper2Voice session at /s.json: no luck"
    );
}

#[test]
fn sessions_are_written_with_line_breaks() {
    let request = SaveSessionRequest { session: sample() };
    assert_eq!(
        save_app_session(&request),
        "{\n  \"books\": [\n    \"a.pdf\",\n    null\n  ],\n  \"page\": 3\n}"
    );
    let nothing = SaveSessionRequest { session: Value::Null };
    assert_eq!(save_app_session(&nothing), "null");
}

fn read_back(session: Value) -> Option<Value> {
    let text = save_app_session(&SaveSessionRequest { session });
    load_app_session("/s.json", Some(text)).unwrap_or(None)
}

#[test]
fn a_saved_session_is_read_back() {
    let strange = "\u{0}\u{1f}\"\\/\u{7f}é\u{2028}\u{1f600} 1.5 [[{";
    for session in [
        sample(),
        Value::Null,
        Value::from(0),
        Value::from(u64::MAX),
        Value::from(i64::MIN),
        Value::from(-1),
        Value::from(strange),
        object(vec![(strange, Value::from(true)), ("", Value::Array(vec![])), ("x", object(vec![]))]),
    ] {
        assert_eq!(read_back(session.clone()), Some(session));
    }
}

#[test]
fn deep_sessions_are_read_back_up_to_a_limit() {
    let nested = |levels: usize| (0..levels).fold(Value::Null, |v, _| Value::Array(vec![v]));
    assert_eq!(read_back(nested(100)), Some(nested(100)));
    assert_eq!(read_back(nested(127)), Some(nested(127)));
    assert_eq!(read_back(nested(128)), None);
}

#[test]
fn floating_point_numbers_are_written_as_such() {
    for number in [0.0f64, -0.0, 1.0, 1e15, 1e16, 1e300, 1.5e-7, 0.1] {
        let text = save_app_session(&SaveSessionRequest { session: Value::from(number) });
        assert!(text.contains('.') || text.contains('e'), "{}", text);
    }
}
