use calsync::values::{value_equiv, Value};

fn text(runs: &[&str]) -> Value {
    Value::Text { runs: runs.iter().map(|s| s.to_string()).collect() }
}

#[test]
fn rich_text_compares_by_concatenated_plain_text() {
    assert_eq!(value_equiv(&text(&["Stand", "up"]), &text(&["Standup"])), Some(true));
    assert_eq!(value_equiv(&text(&["Stand", "up"]), &text(&["Standup!"])), Some(false));
    assert_eq!(value_equiv(&text(&[]), &text(&[""])), Some(true));
}

#[test]
fn numbers_compare_by_value() {
    assert_eq!(
        value_equiv(&Value::Number { num: 3 }, &Value::Number { num: 3 }),
        Some(true)
    );
    assert_eq!(
        value_equiv(&Value::Number { num: 3 }, &Value::Number { num: 4 }),
        Some(false)
    );
}

#[test]
fn checkbox_and_url_compare_by_value() {
    assert_eq!(
        value_equiv(&Value::Checkbox { flag: true }, &Value::Checkbox { flag: true }),
        Some(true)
    );
    assert_eq!(
        value_equiv(
            &Value::Url { url: "https://example.net".to_string() },
            &Value::Url { url: "https://example.org".to_string() },
        ),
        Some(false)
    );
}

#[test]
fn relation_lists_compare_elementwise() {
    let a = Value::Relation { ids: vec!["x".to_string(), "y".to_string()] };
    let b = Value::Relation { ids: vec!["x".to_string(), "y".to_string()] };
    let c = Value::Relation { ids: vec!["xy".to_string()] };
    assert_eq!(value_equiv(&a, &b), Some(true));
    // Unlike rich text, list-valued properties do not concatenate.
    assert_eq!(value_equiv(&a, &c), Some(false));
}

#[test]
fn mismatched_kinds_are_not_comparable() {
    assert_eq!(value_equiv(&Value::Number { num: 1 }, &Value::Checkbox { flag: true }), None);
    assert_eq!(value_equiv(&text(&["a"]), &Value::Title { runs: vec!["a".to_string()] }), None);
}
